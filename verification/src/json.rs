//! The one question the library asks of JSON text: the string held by one
//! member of a JSON object. `serde_json` answers it.
use vstd::prelude::*;

verus! {

/// What `serde_json::from_str` makes of `text`, read as `value[key].as_str()`:
/// `Err(message)` when `text` is not valid JSON, where `message` is the
/// parser's error as `Display` prints it; `Ok(None)` when the document is not
/// an object, or has no member `key`, or that member is not a string.
pub uninterp spec fn json_string_member(text: Seq<char>, key: Seq<char>) -> Result<
    Option<Seq<char>>,
    Seq<char>,
>;

/// The plain view of a member lookup's result.
pub open spec fn member_view(r: Result<Option<String>, String>) -> Result<
    Option<Seq<char>>,
    Seq<char>,
> {
    match r {
        Ok(Some(s)) => Ok(Some(s@)),
        Ok(None) => Ok(None),
        Err(e) => Err(e@),
    }
}

/// Calls `serde_json::from_str::<serde_json::Value>` on `text` and reads the
/// member `key` as a string. The contract only ties the result to
/// [`json_string_member`] of the same arguments; it says nothing of what the
/// parser accepts.
#[verifier::external_body]
pub(crate) fn read_string_member(text: &str, key: &str) -> (r: Result<Option<String>, String>)
    ensures
        member_view(r) == json_string_member(text@, key@),
{
    match serde_json::from_str::<serde_json::Value>(text) {
        Ok(v) => Ok(v.get(key).and_then(|m| m.as_str()).map(|s| s.to_string())),
        Err(e) => Err(e.to_string()),
    }
}

} // verus!
