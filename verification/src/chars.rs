//! Character classification and string building from the standard library.
use vstd::prelude::*;

verus! {

/// Whether Unicode gives `c` the Alphabetic property, as `char::is_alphabetic` reports it.
pub uninterp spec fn unicode_alphabetic(c: char) -> bool;

/// Whether Unicode puts `c` in one of its number categories, as `char::is_numeric` reports it.
pub uninterp spec fn unicode_numeric(c: char) -> bool;

/// `char::is_alphabetic` depends on the character alone: its answer is the
/// Alphabetic property of `c`, which this library does not spell out.
pub assume_specification[ char::is_alphabetic ](c: char) -> (b: bool)
    ensures
        b == unicode_alphabetic(c),
;

/// `char::is_numeric` depends on the character alone: its answer is whether `c`
/// is in a number category of Unicode, which this library does not spell out.
pub assume_specification[ char::is_numeric ](c: char) -> (b: bool)
    ensures
        b == unicode_numeric(c),
;

/// `String::push` appends the one character `c` to the end of the string.
pub assume_specification[ String::push ](s: &mut String, c: char)
    ensures
        final(s)@ == old(s)@.push(c),
;

} // verus!
