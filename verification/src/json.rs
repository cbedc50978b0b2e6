//! An ordered JSON document model that the search and display logic work on.
use vstd::prelude::*;

use crate::text::str_eq;

verus! {

/// A JSON value. Numbers keep the text by which the data file writes them,
/// objects keep their entries in document order.
#[derive(Debug)]
pub enum JsonValue {
    Null,
    Bool(bool),
    Number(String),
    Str(String),
    Array(Vec<JsonValue>),
    Object(Vec<(String, JsonValue)>),
}

/// The value stored under the first entry of `entries` whose key is `key`.
pub open spec fn entries_lookup(entries: Seq<(String, JsonValue)>, key: Seq<char>) -> Option<
    JsonValue,
>
    decreases entries.len(),
{
    if entries.len() == 0 {
        None
    } else if entries[0].0@ == key {
        Some(entries[0].1)
    } else {
        entries_lookup(entries.drop_first(), key)
    }
}

impl JsonValue {
    /// The member named `key` of an object (`None` for other values or a missing key).
    pub open spec fn spec_get(self, key: Seq<char>) -> Option<JsonValue> {
        match self {
            JsonValue::Object(entries) => entries_lookup(entries@, key),
            _ => None,
        }
    }

    /// The text of a string value.
    pub open spec fn spec_as_str(self) -> Option<Seq<char>> {
        match self {
            JsonValue::Str(s) => Some(s@),
            _ => None,
        }
    }

    /// The text of the string member `key`, when there is one.
    pub open spec fn spec_get_str(self, key: Seq<char>) -> Option<Seq<char>> {
        match self.spec_get(key) {
            Some(v) => v.spec_as_str(),
            None => None,
        }
    }

    /// Looks up the member `key` of an object.
    pub fn get(&self, key: &str) -> (r: Option<&JsonValue>)
        ensures
            r matches Some(v) ==> self.spec_get(key@) == Some(*v),
            r is None ==> self.spec_get(key@) is None,
    {
        match self {
            JsonValue::Object(entries) => {
                let mut i: usize = 0;
                assert(entries@.skip(0) == entries@);
                while i < entries.len()
                    invariant
                        0 <= i <= entries@.len(),
                        self.spec_get(key@) == entries_lookup(entries@, key@),
                        entries_lookup(entries@, key@) == entries_lookup(entries@.skip(i as int), key@),
                    decreases entries@.len() - i,
                {
                    assert(entries@.skip(i as int).drop_first() == entries@.skip(i + 1));
                    assert(entries@.skip(i as int)[0] == entries@[i as int]);
                    if str_eq(entries[i].0.as_str(), key) {
                        let ghost rest = entries@.skip(i as int);
                        assert(rest[0] == entries@[i as int]);
                        assert(rest[0].0@ == key@);
                        assert(entries_lookup(rest, key@) == Some(rest[0].1));
                        return Some(&entries[i].1);
                    }
                    i += 1;
                }
                None
            },
            _ => None,
        }
    }

    /// The text of a string value.
    pub fn as_str(&self) -> (r: Option<&str>)
        ensures
            r matches Some(s) ==> self.spec_as_str() == Some(s@),
            r is None ==> self.spec_as_str() is None,
    {
        match self {
            JsonValue::Str(s) => Some(s.as_str()),
            _ => None,
        }
    }

    /// The text of the string member `key`.
    pub fn get_str(&self, key: &str) -> (r: Option<&str>)
        ensures
            r matches Some(s) ==> self.spec_get_str(key@) == Some(s@),
            r is None ==> self.spec_get_str(key@) is None,
    {
        match self.get(key) {
            Some(v) => v.as_str(),
            None => None,
        }
    }
}

/// `serde_json::Value`, the JSON value of `serde_json`, held opaquely.
#[verifier::external_type_specification]
#[verifier::external_body]
pub struct ExSerdeValue(serde_json::Value);

/// The text `serde_json::to_string_pretty` gives for `v` (two-space
/// indentation, members in order), or `None` where it reports an error.
pub uninterp spec fn pretty_json_text(v: JsonValue) -> Option<Seq<char>>;

/// `v` as a `serde_json::Value`, variant for variant. A number goes back
/// through `serde_json::Number`'s parser (a text it refuses, which no data
/// file yields, becomes `null`). Nothing is stated of the result.
#[verifier::external_body]
fn serde_value_of(v: &JsonValue) -> serde_json::Value {
    match v {
        JsonValue::Null => serde_json::Value::Null,
        JsonValue::Bool(b) => serde_json::Value::Bool(*b),
        JsonValue::Number(n) => match n.parse::<serde_json::Number>() {
            Ok(x) => serde_json::Value::Number(x),
            Err(_) => serde_json::Value::Null,
        },
        JsonValue::Str(s) => serde_json::Value::String(s.clone()),
        JsonValue::Array(a) => serde_json::Value::Array(a.iter().map(serde_value_of).collect()),
        JsonValue::Object(es) => serde_json::Value::Object(es.iter().map(|(k, x)| (k.clone(), serde_value_of(x))).collect()),
    }
}

/// `serde_json::to_string_pretty` of the value taken as a
/// `serde_json::Value`: the result is named [`pretty_json_text`], and only
/// that name is stated of it.
#[verifier::external_body]
pub(crate) fn pretty_json(v: &JsonValue) -> (s: Option<String>)
    ensures
        match s {
            Some(t) => pretty_json_text(*v) == Some(t@),
            None => pretty_json_text(*v) is None,
        },
{
    serde_json::to_string_pretty(&serde_value_of(v)).ok()
}

} // verus!
