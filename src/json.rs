use vstd::prelude::*;
use std::collections::BTreeMap;
use crate::store::{names_unique, pairs_map};

verus! {

/// The text serde_json writes, pretty-printed, for a flat JSON object whose
/// members are the entries of `m` (keys in order).
pub uninterp spec fn json_object_text(m: Map<Seq<char>, Seq<char>>) -> Seq<char>;

/// The members serde_json reads from `text` as a flat JSON object whose values
/// are all strings, or `None` where it refuses the text.
pub uninterp spec fn json_object_of(text: Seq<char>) -> Option<Map<Seq<char>, Seq<char>>>;

/// The mapping from name to text value that a list of string pairs stands for.
pub open spec fn text_map(s: Seq<(String, String)>) -> Map<Seq<char>, Seq<char>> {
    pairs_map(s).map_values(|v: String| v@)
}

/// Relies on serde_json::to_string_pretty, on the pairs gathered into a
/// BTreeMap<String, String> (names are unique, so it holds every pair); with
/// string keys and string values serialization cannot fail.
#[verifier::external_body]
pub(crate) fn write_object(pairs: &Vec<(String, String)>) -> (r: Option<String>)
    requires
        names_unique(pairs@),
    ensures
        r is Some,
        r matches Some(t) ==> t@ == json_object_text(text_map(pairs@)),
{
    let m: BTreeMap<String, String> = pairs.iter().cloned().collect();
    serde_json::to_string_pretty(&m).ok()
}

/// Relies on serde_json::from_str into a BTreeMap<String, String>, whose
/// members are handed out as pairs with unique keys.
#[verifier::external_body]
pub(crate) fn read_object(text: &str) -> (r: Option<Vec<(String, String)>>)
    ensures
        match r {
            Some(v) => names_unique(v@) && json_object_of(text@) == Some(text_map(v@)),
            None => json_object_of(text@) is None,
        },
{
    match serde_json::from_str::<BTreeMap<String, String>>(text) {
        Ok(m) => Some(m.into_iter().collect()),
        Err(_) => None,
    }
}

} // verus!
