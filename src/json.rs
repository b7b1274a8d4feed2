use vstd::prelude::*;

use std::collections::BTreeMap;

verus! {

/// Whether `text` is a well-formed JSON document, as judged by
/// `serde_json::from_str::<serde_json::Value>`.
pub uninterp spec fn json_well_formed(text: Seq<char>) -> bool;

/// What the JSON object `text` holds under `key`, read as an optional table
/// of strings: `None` when `text` is not a JSON object or the member is
/// neither `null` nor an object of strings; `Some(None)` when the member is
/// missing or `null`; else the table's keys, in sorted order.
pub uninterp spec fn member_keys_of(text: Seq<char>, key: Seq<char>) -> Option<Option<Seq<Seq<char>>>>;

/// Relies on `serde_json::from_str` into a `BTreeMap<String, Value>` (a JSON
/// object) and `serde_json::from_value` into `Option<BTreeMap<String,
/// String>>`: the keys of the string table held under `key`. Text that is not
/// well-formed JSON is no object.
#[verifier::external_body]
pub(crate) fn json_member_keys(text: &str, key: &str) -> (r: Option<Option<Vec<String>>>)
    ensures
        r is None <==> member_keys_of(text@, key@) is None,
        r matches Some(None) ==> member_keys_of(text@, key@) == Some(None::<Seq<Seq<char>>>),
        r matches Some(Some(v)) ==> member_keys_of(text@, key@) == Some(
            Some(v@.map_values(|s: String| s@)),
        ),
        !json_well_formed(text@) ==> r is None,
{
    let doc: BTreeMap<String, serde_json::Value> = serde_json::from_str(text).ok()?;
    match doc.get(key) {
        None => Some(None),
        Some(v) => match serde_json::from_value::<Option<BTreeMap<String, String>>>(v.clone()) {
            Ok(Some(table)) => Some(Some(table.into_keys().collect())),
            Ok(None) => Some(None),
            Err(_) => None,
        },
    }
}

} // verus!
