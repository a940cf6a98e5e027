//! JSON objects of text, flag and count members, serialized by `serde_json`.

use vstd::prelude::*;
use vstd::utf8::encode_utf8;

verus! {

/// Text members as plain values.
pub open spec fn text_members(v: Seq<(String, String)>) -> Seq<(Seq<char>, Seq<char>)> {
    Seq::new(v.len(), |i: int| (v[i].0@, v[i].1@))
}

/// Flag members as plain values.
pub open spec fn flag_members(v: Seq<(String, bool)>) -> Seq<(Seq<char>, bool)> {
    Seq::new(v.len(), |i: int| (v[i].0@, v[i].1))
}

/// Count members as plain values.
pub open spec fn count_members(v: Seq<(String, u64)>) -> Seq<(Seq<char>, u64)> {
    Seq::new(v.len(), |i: int| (v[i].0@, v[i].1))
}

/// The compact JSON text `serde_json` writes for the object holding these members
/// (text members as JSON strings, flags as `true`/`false`, counts as integers).
pub uninterp spec fn json_object_text(
    texts: Seq<(Seq<char>, Seq<char>)>,
    flags: Seq<(Seq<char>, bool)>,
    counts: Seq<(Seq<char>, u64)>,
) -> Seq<char>;

/// `serde_json::Value::to_string` of the object whose members are the given text,
/// flag and count pairs. The text depends on the members alone and is left to
/// [`json_object_text`]; as any `String`, it holds at most `isize::MAX` bytes.
#[verifier::external_body]
pub(crate) fn json_object(texts: Vec<(String, String)>, flags: Vec<(String, bool)>, counts: Vec<(String, u64)>) -> (r: String)
    ensures
        r@ == json_object_text(text_members(texts@), flag_members(flags@), count_members(counts@)),
        encode_utf8(r@).len() <= isize::MAX,
{
    let mut object = serde_json::Map::new();
    object.extend(texts.into_iter().map(|(key, value)| (key, serde_json::Value::from(value))));
    object.extend(flags.into_iter().map(|(key, value)| (key, serde_json::Value::from(value))));
    object.extend(counts.into_iter().map(|(key, value)| (key, serde_json::Value::from(value))));
    serde_json::Value::Object(object).to_string()
}

} // verus!
