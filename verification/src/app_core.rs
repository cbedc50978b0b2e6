//! The runtime-independent application core: input events, layout
//! geometry, the application state and the event reducer.
pub mod input;
pub mod layout;
pub mod indexing;
pub mod state;
pub mod reducer;
pub mod actions;
pub mod history;
