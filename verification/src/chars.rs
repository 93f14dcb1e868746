//! What the standard library tells of a single code point: its width in
//! UTF-8 and the Unicode classes that the tokenizer sorts it by.
//!
//! On ASCII the three classes are written out. Beyond ASCII they are the
//! Unicode tables that the standard library ships, and are left as names.

use vstd::prelude::*;
use vstd::utf8::encode_scalar;

verus! {

/// Whether a code point beyond ASCII has the Unicode property `White_Space`.
pub uninterp spec fn unicode_white_space(c: char) -> bool;

/// Whether a code point beyond ASCII has the Unicode property `Alphabetic`.
pub uninterp spec fn unicode_alphabetic(c: char) -> bool;

/// Whether a code point beyond ASCII is in one of the Unicode general
/// categories for numbers.
pub uninterp spec fn unicode_numeric(c: char) -> bool;

/// The code point is one of the 128 of ASCII.
pub open spec fn in_ascii(c: char) -> bool {
    c <= '\u{7f}'
}

/// The white space of ASCII: the space and the controls from tab to
/// carriage return.
pub open spec fn ascii_space(c: char) -> bool {
    c == ' ' || ('\u{9}' <= c && c <= '\u{d}')
}

/// The letters of ASCII.
pub open spec fn ascii_letter(c: char) -> bool {
    ('a' <= c && c <= 'z') || ('A' <= c && c <= 'Z')
}

/// The digits of ASCII.
pub open spec fn ascii_digit(c: char) -> bool {
    '0' <= c && c <= '9'
}

/// White space.
pub open spec fn whitespace(c: char) -> bool {
    if in_ascii(c) {
        ascii_space(c)
    } else {
        unicode_white_space(c)
    }
}

/// Letters.
pub open spec fn alphabetic(c: char) -> bool {
    if in_ascii(c) {
        ascii_letter(c)
    } else {
        unicode_alphabetic(c)
    }
}

/// Numbers.
pub open spec fn numeric(c: char) -> bool {
    if in_ascii(c) {
        ascii_digit(c)
    } else {
        unicode_numeric(c)
    }
}

/// Letters and numbers.
pub open spec fn alphanumeric(c: char) -> bool {
    alphabetic(c) || numeric(c)
}

/// `char::len_utf8` returns the number of bytes of the code point's UTF-8
/// encoding.
pub assume_specification[ char::len_utf8 ](c: char) -> (n: usize)
    ensures
        n == encode_scalar(c as u32).len(),
;

/// `char::is_whitespace` tells whether the code point has the Unicode
/// property `White_Space`. On ASCII that is the space and U+0009 to U+000D;
/// beyond it the claim is only that the answer depends on the code point
/// alone.
pub assume_specification[ char::is_whitespace ](c: char) -> (r: bool)
    ensures
        in_ascii(c) ==> r == ascii_space(c),
        !in_ascii(c) ==> r == unicode_white_space(c),
;

/// `char::is_alphabetic` tells whether the code point has the Unicode
/// property `Alphabetic`. On ASCII that is the 52 letters; beyond it the
/// claim is only that the answer depends on the code point alone.
pub assume_specification[ char::is_alphabetic ](c: char) -> (r: bool)
    ensures
        in_ascii(c) ==> r == ascii_letter(c),
        !in_ascii(c) ==> r == unicode_alphabetic(c),
;

/// `char::is_alphanumeric` holds of a code point exactly when
/// `char::is_alphabetic` or `char::is_numeric` does. On ASCII that is the
/// letters and the ten digits; beyond it the claim is only that the code
/// point is alphabetic or in a number category of Unicode.
pub assume_specification[ char::is_alphanumeric ](c: char) -> (r: bool)
    ensures
        in_ascii(c) ==> r == (ascii_letter(c) || ascii_digit(c)),
        !in_ascii(c) ==> r == (unicode_alphabetic(c) || unicode_numeric(c)),
;

} // verus!
