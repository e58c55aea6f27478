//! Unicode word characters, as the regular-expression class `\w` has them.
use vstd::prelude::*;

verus! {

/// Whether `c` is a Unicode word character: `Alphabetic`, `Join_Control`,
/// or of the `Decimal_Number`, `Mark` or `Connector_Punctuation` categories
/// (UTS#18 Annex C), as `regex_syntax::is_word_character` reports it.
pub uninterp spec fn is_word_char(c: char) -> bool;

/// An ASCII word character: `[_0-9A-Za-z]`.
pub open spec fn ascii_word(c: char) -> bool {
    c == '_' || ('0' <= c && c <= '9') || ('A' <= c && c <= 'Z') || ('a' <= c && c <= 'z')
}

/// Whether `c` is a word character: for ASCII, `[_0-9A-Za-z]`; beyond
/// ASCII, [`is_word_char`].
pub open spec fn word_class(c: char) -> bool {
    if (c as u32) < 128 {
        ascii_word(c)
    } else {
        is_word_char(c)
    }
}

/// Calls `regex_syntax::is_word_character`. Its Unicode tables are not
/// restated here; the contract ties the answer to [`is_word_char`], and
/// says what it is for ASCII, where the function answers `[_0-9A-Za-z]`
/// (its byte fast path, and the ASCII ranges of its `PERL_WORD` table).
/// The function panics only when the crate's `unicode-perl` feature is off,
/// and it is on by default.
#[verifier::external_body]
pub(crate) fn word_char(c: char) -> (r: bool)
    ensures
        r == is_word_char(c),
        (c as u32) < 128 ==> r == ascii_word(c),
{
    regex_syntax::is_word_character(c)
}

} // verus!
