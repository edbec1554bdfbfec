//! JSON objects of strings, written out.

use vstd::prelude::*;

verus! {

/// The views of a list of named texts.
pub open spec fn field_views(fields: Seq<(String, String)>) -> Seq<(Seq<char>, Seq<char>)> {
    fields.map_values(|field: (String, String)| (field.0@, field.1@))
}

/// The JSON object whose members are `fields`, written out.
pub uninterp spec fn object_written(fields: Seq<(Seq<char>, Seq<char>)>) -> Seq<char>;

/// A `serde_json` map of these members, each a string, written out by the
/// `Display` of `serde_json::Value`. The result depends on the members alone;
/// the order of the members and the escapes are not stated.
#[verifier::external_body]
pub(crate) fn object_text(fields: Vec<(String, String)>) -> (text: String)
    ensures
        text@ == object_written(field_views(fields@)),
{
    let mut map = serde_json::Map::new();
    map.extend(fields.into_iter().map(|(name, value)| (name, serde_json::Value::String(value))));
    serde_json::Value::Object(map).to_string()
}

} // verus!
