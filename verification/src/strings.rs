//! What the driver takes on trust of the standard library's `String`.

use vstd::prelude::*;

verus! {

/// `String::push` appends the character to the end of the string and
/// leaves the rest as it was.
pub assume_specification[ String::push ](text: &mut String, ch: char)
    ensures
        final(text)@ == old(text)@.push(ch),
;

/// `String::push_str` appends the string slice to the end of the string
/// and leaves the rest as it was.
pub assume_specification[ String::push_str ](text: &mut String, tail: &str)
    ensures
        final(text)@ == old(text)@ + tail@,
;

} // verus!
