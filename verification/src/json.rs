//! Documents in JSON, read by `serde_json`.

use vstd::prelude::*;

verus! {

/// A parsed document of `serde_json`.
#[verifier::external_type_specification]
#[verifier::external_body]
pub struct ExValue(serde_json::Value);

/// The strings that a document holds, each under the JSON Pointer that leads to
/// it.
pub uninterp spec fn json_texts(v: serde_json::Value) -> Map<Seq<char>, Seq<char>>;

/// What `serde_json` makes of bytes: the strings of the document, or the message
/// of the error.
pub uninterp spec fn json_document(bytes: Seq<u8>) -> Result<
    Map<Seq<char>, Seq<char>>,
    Seq<char>,
>;

/// The string at the place, if there is one.
pub open spec fn text_in(texts: Map<Seq<char>, Seq<char>>, pointer: Seq<char>) -> Option<Seq<char>> {
    if texts.contains_key(pointer) {
        Some(texts[pointer])
    } else {
        None
    }
}

/// `serde_json::from_slice` for a `Value`: what it makes of the bytes depends on
/// them alone. What the grammar is is left unsaid.
#[verifier::external_body]
pub(crate) fn parse_json(bytes: &[u8]) -> (r: Result<serde_json::Value, String>)
    ensures
        match json_document(bytes@) {
            Ok(texts) => r is Ok && json_texts(r->Ok_0) == texts,
            Err(m) => r is Err && r->Err_0@ == m,
        },
{
    serde_json::from_slice::<serde_json::Value>(bytes).map_err(|e| e.to_string())
}

/// `Value::pointer` and `Value::as_str`: the string that the JSON Pointer leads
/// to, where it leads to one.
#[verifier::external_body]
pub(crate) fn text_at(v: &serde_json::Value, pointer: &str) -> (r: Option<String>)
    ensures
        r.deep_view() == text_in(json_texts(*v), pointer@),
{
    v.pointer(pointer).and_then(|x| x.as_str()).map(|s| s.to_owned())
}

} // verus!
