//! Values read out of JSON replies, through the `serde_json` crate.
use vstd::prelude::*;

verus! {

/// What `serde_json::from_slice::<serde_json::Value>(bytes)`, then `Value::pointer(pointer)`
/// and `Value::as_str` give: the string found at the JSON pointer `pointer` of the document
/// `bytes`; `None` when `bytes` is not JSON, nothing stands at `pointer`, or what stands
/// there is not a string.
pub uninterp spec fn json_str(bytes: Seq<u8>, pointer: Seq<char>) -> Option<Seq<char>>;

/// What `serde_json::from_slice::<serde_json::Value>(bytes)`, then `Value::pointer(pointer)`
/// and `Value::to_string` give: the JSON text of the value at the JSON pointer `pointer` of
/// the document `bytes` (a string keeps its quotes); `None` when `bytes` is not JSON or
/// nothing stands at `pointer`.
pub uninterp spec fn json_text(bytes: Seq<u8>, pointer: Seq<char>) -> Option<Seq<char>>;

/// What `serde_json::from_slice::<serde_json::Value>(bytes)`, then `Value::pointer(pointer)`
/// and `Value::as_bool` give: the boolean at the JSON pointer `pointer` of the document
/// `bytes`; `None` when `bytes` is not JSON, nothing stands at `pointer`, or what stands
/// there is not a boolean.
pub uninterp spec fn json_bool(bytes: Seq<u8>, pointer: Seq<char>) -> Option<bool>;

/// What `serde_json::from_slice::<serde_json::Value>(bytes)`, then `Value::pointer(pointer)`,
/// `Value::as_array` and `Vec::len` give: the length of the array at the JSON pointer
/// `pointer` of the document `bytes`; `None` when `bytes` is not JSON, nothing stands at
/// `pointer`, or what stands there is not an array.
pub uninterp spec fn json_len(bytes: Seq<u8>, pointer: Seq<char>) -> Option<nat>;

/// The string at `pointer` in the JSON document `bytes`, by `serde_json`.
/// Trusted: the result is `json_str(bytes@, pointer@)`.
#[verifier::external_body]
pub fn json_str_at(bytes: &[u8], pointer: &str) -> (res: Option<String>)
    ensures
        match res {
            Some(s) => json_str(bytes@, pointer@) == Some(s@),
            None => json_str(bytes@, pointer@) is None,
        },
{
    let v: serde_json::Value = serde_json::from_slice(bytes).ok()?;
    v.pointer(pointer)?.as_str().map(|s| s.to_string())
}

/// The JSON text of the value at `pointer` in the JSON document `bytes`, by `serde_json`.
/// Trusted: the result is `json_text(bytes@, pointer@)`.
#[verifier::external_body]
pub fn json_text_at(bytes: &[u8], pointer: &str) -> (res: Option<String>)
    ensures
        match res {
            Some(s) => json_text(bytes@, pointer@) == Some(s@),
            None => json_text(bytes@, pointer@) is None,
        },
{
    let v: serde_json::Value = serde_json::from_slice(bytes).ok()?;
    Some(v.pointer(pointer)?.to_string())
}

/// The boolean at `pointer` in the JSON document `bytes`, by `serde_json`.
/// Trusted: the result is `json_bool(bytes@, pointer@)`.
#[verifier::external_body]
pub fn json_bool_at(bytes: &[u8], pointer: &str) -> (res: Option<bool>)
    ensures
        res == json_bool(bytes@, pointer@),
{
    let v: serde_json::Value = serde_json::from_slice(bytes).ok()?;
    v.pointer(pointer)?.as_bool()
}

/// The length of the array at `pointer` in the JSON document `bytes`, by `serde_json`.
/// Trusted: the result is `json_len(bytes@, pointer@)`.
#[verifier::external_body]
pub fn json_len_at(bytes: &[u8], pointer: &str) -> (res: Option<usize>)
    ensures
        match res {
            Some(n) => json_len(bytes@, pointer@) == Some(n as nat),
            None => json_len(bytes@, pointer@) is None,
        },
{
    let v: serde_json::Value = serde_json::from_slice(bytes).ok()?;
    v.pointer(pointer)?.as_array().map(|a| a.len())
}

} // verus!
