//! Data model shared by the indexing, search and display code.
use vstd::prelude::*;

use crate::json::JsonValue;

verus! {

/// Core metadata for a game build, flattened from the build list or the
/// header of a data file.
#[derive(Debug, Clone)]
pub struct BuildInfo {
    /// The unique build identifier (e.g. "2024-01-01" or "v0.9.1").
    pub build_number: String,
    /// The human-readable tag name (often the build number).
    pub tag_name: String,
    /// Whether this is a prerelease/nightly build.
    pub prerelease: bool,
    /// ISO 8601 creation timestamp.
    pub created_at: String,
}

/// An item of the game data: its JSON value and its resolved `id` and `type`.
#[derive(Debug)]
pub struct IndexedItem {
    /// The JSON data of the item.
    pub value: JsonValue,
    /// The string `id` of the item ("" when it has none).
    pub id: String,
    /// The string `type` of the item ("" when it has none).
    pub item_type: String,
}

/// The `id` an item resolves to: its string member `id`, or "".
pub open spec fn resolved_id(value: JsonValue) -> Seq<char> {
    match value.spec_get_str("id"@) {
        Some(s) => s,
        None => Seq::empty(),
    }
}

/// The `type` an item resolves to: its string member `type`, or "".
pub open spec fn resolved_type(value: JsonValue) -> Seq<char> {
    match value.spec_get_str("type"@) {
        Some(s) => s,
        None => Seq::empty(),
    }
}

/// Copies a string slice into a new `String`.
pub fn owned(s: &str) -> (out: String)
    ensures
        out@ == s@,
{
    s.to_owned()
}

impl IndexedItem {
    /// Builds an item from its JSON value, resolving the string members `id` and `type` ("" when absent or not strings).
    pub fn from_value(value: JsonValue) -> (item: IndexedItem)
        ensures
            item.value == value,
            item.id@ == resolved_id(value),
            item.item_type@ == resolved_type(value),
    {
        let id = match value.get_str("id") {
            Some(s) => owned(s),
            None => String::new(),
        };
        let item_type = match value.get_str("type") {
            Some(s) => owned(s),
            None => String::new(),
        };
        IndexedItem { value, id, item_type }
    }
}

/// The root of a game data file: the build it belongs to and its items.
#[derive(Debug)]
pub struct Root {
    /// Build metadata.
    pub build: BuildInfo,
    /// The game data items.
    pub data: Vec<JsonValue>,
}

/// Progress of a download: bytes received and the expected total, when known.
#[derive(Debug, Clone, Copy)]
pub struct DownloadProgress {
    pub downloaded: u64,
    pub total: Option<u64>,
}

/// The boolean value of `v`, when it is one.
pub open spec fn spec_as_bool(v: JsonValue) -> Option<bool> {
    match v {
        JsonValue::Bool(b) => Some(b),
        _ => None,
    }
}

/// The string member `key` of an optional `release` object.
pub open spec fn release_str(release: Option<JsonValue>, key: Seq<char>) -> Option<Seq<char>> {
    match release {
        Some(r) => r.spec_get_str(key),
        None => None,
    }
}

/// The boolean member `prerelease` of an optional `release` object.
pub open spec fn release_prerelease(release: Option<JsonValue>) -> Option<bool> {
    match release {
        Some(r) => match r.spec_get("prerelease"@) {
            Some(v) => spec_as_bool(v),
            None => None,
        },
        None => None,
    }
}

impl BuildInfo {
    /// The build described by the fields of a build record: a nested
    /// `release` object, when it holds them, supplies the tag name (else the
    /// build number), the prerelease flag (else `prerelease`, else false) and
    /// the creation time (else `created_at`, else "").
    pub fn from_fields(
        build_number: String,
        prerelease: Option<bool>,
        created_at: Option<String>,
        release: Option<JsonValue>,
    ) -> (b: BuildInfo)
        ensures
            b.build_number@ == build_number@,
            b.tag_name@ == (match release_str(release, "tag_name"@) {
                Some(t) => t,
                None => build_number@,
            }),
            b.prerelease == (match release_prerelease(release) {
                Some(p) => p,
                None => match prerelease {
                    Some(p) => p,
                    None => false,
                },
            }),
            b.created_at@ == (match release_str(release, "created_at"@) {
                Some(c) => c,
                None => match created_at {
                    Some(c) => c@,
                    None => Seq::empty(),
                },
            }),
    {
        let mut tag_name = build_number.clone();
        let mut pre = match prerelease {
            Some(p) => p,
            None => false,
        };
        let mut created = match created_at {
            Some(c) => c,
            None => String::new(),
        };
        if let Some(r) = &release {
            if let Some(tag) = r.get_str("tag_name") {
                tag_name = owned(tag);
            }
            if let Some(v) = r.get("prerelease") {
                if let JsonValue::Bool(p) = v {
                    pre = *p;
                }
            }
            if let Some(c) = r.get_str("created_at") {
                created = owned(c);
            }
        }
        BuildInfo { build_number, tag_name, prerelease: pre, created_at: created }
    }
}

} // verus!
