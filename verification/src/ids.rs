//! Fresh identifiers: random (version 4) UUIDs from the `uuid` crate.
use vstd::prelude::*;

verus! {

/// A lower-case hexadecimal digit.
pub open spec fn is_lower_hex(c: char) -> bool {
    ('0' <= c && c <= '9') || ('a' <= c && c <= 'f')
}

/// The hyphenated text of a UUID: 36 characters, hyphens at positions 8,
/// 13, 18 and 23, lower-case hexadecimal digits elsewhere.
pub open spec fn is_uuid_text(s: Seq<char>) -> bool {
    &&& s.len() == 36
    &&& forall|i: int|
        0 <= i < 36 ==> if i == 8 || i == 13 || i == 18 || i == 23 {
            #[trigger] s[i] == '-'
        } else {
            is_lower_hex(s[i])
        }
}

/// Calls `uuid::Uuid::new_v4()` and formats it with `to_string`, which
/// writes the hyphenated lower-case form. Which UUID comes out is random,
/// so the contract states only its form. (`new_v4` panics only when the
/// operating system cannot supply random bytes.)
#[verifier::external_body]
pub(crate) fn new_uuid() -> (r: String)
    ensures
        is_uuid_text(r@),
{
    uuid::Uuid::new_v4().to_string()
}

} // verus!
