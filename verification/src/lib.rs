use vstd::prelude::*;

pub mod text;
pub mod theme;
pub mod width;
pub mod json;
pub mod matcher;
pub mod model;
pub mod highlight;
pub mod search_index;
pub mod ui;
pub mod app_core;
pub mod data;
pub mod laws;

verus! {

} // verus!
