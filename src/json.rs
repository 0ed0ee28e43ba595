//! The JSON texts exchanged with the remote store, read and written by
//! serde_json.

use vstd::prelude::*;

verus! {

/// What serde_json reads from `text` as one JSON object: each member's key,
/// with the member's value where that value is a JSON string. `None` where
/// `text` is not one JSON object.
pub uninterp spec fn json_object_members(text: Seq<char>) -> Option<Seq<(Seq<char>, Option<Seq<char>>)>>;

/// The JSON object text that serde_json writes for a list of string pairs.
pub uninterp spec fn json_object_text(pairs: Seq<(Seq<char>, Seq<char>)>) -> Seq<char>;

/// No key occurs twice among the members.
pub open spec fn member_keys_distinct(ms: Seq<(Seq<char>, Option<Seq<char>>)>) -> bool {
    forall|i: int, j: int| 0 <= i < j < ms.len() ==> ms[i].0 != ms[j].0
}

/// Relies on `serde_json::from_str` into a `BTreeMap<String, serde_json::Value>`,
/// which fails unless the text is one JSON object, and on
/// `serde_json::Value::as_str`, which gives a member's value where it is a
/// string. A map holds each key once.
#[verifier::external_body]
pub(crate) fn parse_json_object(text: &str) -> (r: Option<Vec<(String, Option<String>)>>)
    ensures
        json_object_members(text@) == match r {
            Some(ms) => Some(ms.deep_view()),
            None => None::<Seq<(Seq<char>, Option<Seq<char>>)>>,
        },
        r matches Some(ms) ==> member_keys_distinct(ms.deep_view()),
{
    match serde_json::from_str::<std::collections::BTreeMap<String, serde_json::Value>>(text) {
        Ok(map) => Some(map.into_iter().map(|(k, v)| (k, v.as_str().map(String::from))).collect()),
        Err(_) => None,
    }
}

/// Relies on `serde_json::to_string` on a `BTreeMap<&str, &str>`: the JSON
/// object with one string member per pair. Serialising string keys and
/// values does not fail.
#[verifier::external_body]
pub(crate) fn encode_json_object(pairs: &Vec<(String, String)>) -> (r: String)
    ensures
        r@ == json_object_text(pairs.deep_view()),
{
    let map: std::collections::BTreeMap<&str, &str> =
        pairs.iter().map(|(k, v)| (k.as_str(), v.as_str())).collect();
    serde_json::to_string(&map).unwrap_or_default()
}

} // verus!
