use vstd::prelude::*;
use serde_json::Value;

verus! {

// ---------------------------------------------------------------------------
// What `serde_json` reads from a JSON text. Each reader parses the text with
// `serde_json::from_str::<Value>`; the names below stand for what it finds.
// ---------------------------------------------------------------------------

/// The text (`Display`) of the error `serde_json::from_str::<Value>(text)`
/// reports; `None` where the text is JSON.
pub uninterp spec fn json_error_of(text: Seq<char>) -> Option<Seq<char>>;

/// `value.get(key)` of the parsed text, where it is a string (`as_str`).
pub uninterp spec fn json_str_member(text: Seq<char>, key: Seq<char>) -> Option<Seq<char>>;

/// `value.get(key)` of the parsed text, where it is a boolean (`as_bool`).
pub uninterp spec fn json_bool_member(text: Seq<char>, key: Seq<char>) -> Option<bool>;

/// `value.get(key)` of the parsed text, where it is an integer from 0 to
/// `u64::MAX` (`as_u64`).
pub uninterp spec fn json_u64_member(text: Seq<char>, key: Seq<char>) -> Option<u64>;

/// The length of `value.get(key)` of the parsed text, where it is an array
/// (`as_array`).
pub uninterp spec fn json_array_len(text: Seq<char>, key: Seq<char>) -> Option<nat>;

/// Member `member` of item `i` of the array `value.get(key)` of the parsed
/// text, where it is a string.
pub uninterp spec fn json_item_str(text: Seq<char>, key: Seq<char>, i: int, member: Seq<char>) -> Option<
    Seq<char>,
>;

/// `serde_json::from_str::<Value>(text)`: `Ok` where the text is JSON, else
/// the error together with its text (`to_string`).
#[verifier::external_body]
pub(crate) fn check_json(text: &str) -> (r: Result<(), (serde_json::Error, String)>)
    ensures
        match r {
            Ok(()) => json_error_of(text@) is None,
            Err((_, t)) => json_error_of(text@) == Some(t@),
        },
{
    match serde_json::from_str::<Value>(text) {
        Ok(_) => Ok(()),
        Err(e) => {
            let t = e.to_string();
            Err((e, t))
        },
    }
}

/// `from_str::<Value>(text)`, then `get(key)` and `as_str`.
#[verifier::external_body]
pub(crate) fn str_member(text: &str, key: &str) -> (r: Option<String>)
    ensures
        match r {
            Some(s) => json_str_member(text@, key@) == Some(s@),
            None => json_str_member(text@, key@) is None,
        },
{
    let v: Value = serde_json::from_str(text).ok()?;
    Some(v.get(key)?.as_str()?.to_string())
}

/// `from_str::<Value>(text)`, then `get(key)` and `as_bool`.
#[verifier::external_body]
pub(crate) fn bool_member(text: &str, key: &str) -> (r: Option<bool>)
    ensures
        r == json_bool_member(text@, key@),
{
    let v: Value = serde_json::from_str(text).ok()?;
    v.get(key)?.as_bool()
}

/// `from_str::<Value>(text)`, then `get(key)` and `as_u64`.
#[verifier::external_body]
pub(crate) fn u64_member(text: &str, key: &str) -> (r: Option<u64>)
    ensures
        r == json_u64_member(text@, key@),
{
    let v: Value = serde_json::from_str(text).ok()?;
    v.get(key)?.as_u64()
}

/// `from_str::<Value>(text)`, then `get(key)`, `as_array` and `len`.
#[verifier::external_body]
pub(crate) fn array_len(text: &str, key: &str) -> (r: Option<usize>)
    ensures
        match r {
            Some(n) => json_array_len(text@, key@) == Some(n as nat),
            None => json_array_len(text@, key@) is None,
        },
{
    let v: Value = serde_json::from_str(text).ok()?;
    Some(v.get(key)?.as_array()?.len())
}

/// `from_str::<Value>(text)`, then `get(key)`, `get(i)`, `get(member)` and
/// `as_str`.
#[verifier::external_body]
pub(crate) fn item_str(text: &str, key: &str, i: usize, member: &str) -> (r: Option<String>)
    ensures
        match r {
            Some(s) => json_item_str(text@, key@, i as int, member@) == Some(s@),
            None => json_item_str(text@, key@, i as int, member@) is None,
        },
{
    let v: Value = serde_json::from_str(text).ok()?;
    Some(v.get(key)?.get(i)?.get(member)?.as_str()?.to_string())
}

} // verus!
