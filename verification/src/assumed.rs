//! What the library takes on trust from the standard library.
//!
//! Nothing here is proved: each item states what a function of the standard
//! library does, as its documentation gives it. The two character classes
//! are Unicode properties. What they are on ASCII characters is written out;
//! beyond those they are what the Unicode tables hold that the standard
//! library is built with, and have a name only.

use vstd::prelude::*;

verus! {

/// Whether `c` has the Unicode property `White_Space`.
pub uninterp spec fn unicode_whitespace(c: char) -> bool;

/// Whether `c` has the Unicode property `Alphabetic`.
pub uninterp spec fn unicode_alphabetic(c: char) -> bool;

/// `char::is_whitespace` decides the Unicode property `White_Space`: its
/// answer depends on the character alone. Among the ASCII characters the
/// property holds of the space and of the five from the tabulator to the
/// carriage return, and of no other.
pub assume_specification[ char::is_whitespace ](c: char) -> (b: bool)
    ensures
        b == unicode_whitespace(c),
        c <= '\u{7f}' ==> b == (c == ' ' || ('\t' <= c && c <= '\r')),
;

/// `char::is_alphabetic` decides the Unicode property `Alphabetic`: its
/// answer depends on the character alone. Among the ASCII characters the
/// property holds of the letters `a` to `z` and `A` to `Z`, and of no
/// other.
pub assume_specification[ char::is_alphabetic ](c: char) -> (b: bool)
    ensures
        b == unicode_alphabetic(c),
        c <= '\u{7f}' ==> b == (('a' <= c && c <= 'z') || ('A' <= c && c <= 'Z')),
;

/// `String::push` appends one character to the end of the string and leaves
/// the characters before it as they were.
pub assume_specification[ std::string::String::push ](s: &mut std::string::String, c: char)
    ensures
        final(s)@ == old(s)@.push(c),
;

} // verus!
