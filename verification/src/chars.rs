//! Character classification used by the lexer.
//!
//! Digits and white space have exact, self-contained definitions. The Unicode
//! `Alphabetic` and alphanumeric classes are far too large to state here, so
//! they are named by uninterpreted functions and obtained from std.

use vstd::prelude::*;

verus! {

/// An ASCII decimal digit, `'0'` through `'9'`.
pub open spec fn is_digit_char(c: char) -> bool {
    48 <= c as u32 && c as u32 <= 57
}

pub fn digit_char(c: char) -> (r: bool)
    ensures
        r == is_digit_char(c),
{
    let u = c as u32;
    48 <= u && u <= 57
}

/// A character with the Unicode `White_Space` property.
pub open spec fn is_white_char(c: char) -> bool {
    let u = c as u32;
    ||| (9 <= u && u <= 13)
    ||| u == 32
    ||| u == 0x85
    ||| u == 0xA0
    ||| u == 0x1680
    ||| (0x2000 <= u && u <= 0x200A)
    ||| u == 0x2028
    ||| u == 0x2029
    ||| u == 0x202F
    ||| u == 0x205F
    ||| u == 0x3000
}

pub fn white_char(c: char) -> (r: bool)
    ensures
        r == is_white_char(c),
{
    let u = c as u32;
    (9 <= u && u <= 13) || u == 32 || u == 0x85 || u == 0xA0 || u == 0x1680
        || (0x2000 <= u && u <= 0x200A) || u == 0x2028 || u == 0x2029 || u == 0x202F
        || u == 0x205F || u == 0x3000
}

/// Whether `c` has the Unicode `Alphabetic` property; a function of the
/// character alone, left uninterpreted.
pub uninterp spec fn is_alpha_char(c: char) -> bool;

/// Whether `c` is alphanumeric (alphabetic or numeric) per Unicode; a function
/// of the character alone, left uninterpreted.
pub uninterp spec fn is_alnum_char(c: char) -> bool;

/// Relies on char::is_alphabetic: whether the character has the Unicode
/// `Alphabetic` property, a pure function of the character.
pub assume_specification[ char::is_alphabetic ](c: char) -> (r: bool)
    ensures
        r == is_alpha_char(c),
;

/// Relies on char::is_alphanumeric: alphabetic or numeric per Unicode. Every
/// alphabetic character is alphanumeric, and no `White_Space` character is
/// alphanumeric.
pub assume_specification[ char::is_alphanumeric ](c: char) -> (r: bool)
    ensures
        r == is_alnum_char(c),
        is_alpha_char(c) ==> r,
        is_white_char(c) ==> !r,
;

} // verus!
