//! Small trusted bridges to `std`'s text operations that `vstd` does not
//! specify.

use vstd::prelude::*;
use vstd::utf8::*;

verus! {

/// What `char::is_whitespace` holds of each character. The class is defined
/// by the Unicode `White_Space` property and depends on the character alone.
pub uninterp spec fn char_is_whitespace(c: char) -> bool;

/// Relies on `char::is_whitespace`: true exactly for `White_Space`
/// characters; a pure function of the character. Space, tab, newline and
/// carriage return are documented members of the class, and no printable
/// ASCII character other than the space is in it.
pub assume_specification[ char::is_whitespace ](c: char) -> (r: bool)
    ensures
        r == char_is_whitespace(c),
        c == ' ' ==> r,
        c == '\t' ==> r,
        c == '\n' ==> r,
        c == '\r' ==> r,
        '!' <= c && c <= '~' ==> !r,
;

/// Relies on `String::from_utf8`: succeeds exactly on valid UTF-8, and the
/// string's characters are the bytes' UTF-8 decoding.
#[verifier::external_body]
pub(crate) fn string_from_utf8(v: &[u8]) -> (r: Option<String>)
    ensures
        r is Some <==> valid_utf8(v@),
        r matches Some(s) ==> s@ == decode_utf8(v@),
{
    String::from_utf8(v.to_vec()).ok()
}

/// Relies on `String::push`: appends the one character to the end.
#[verifier::external_body]
pub(crate) fn push_char(s: &mut String, c: char)
    ensures
        final(s)@ == old(s)@.push(c),
{
    s.push(c);
}

} // verus!
