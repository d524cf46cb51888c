//! Specifications assumed, without proof, of standard-library functions
//! that vstd leaves unspecified.

use vstd::prelude::*;

verus! {

/// Whether `c` is alphanumeric in the Unicode sense, as decided by
/// `char::is_alphanumeric`.
pub uninterp spec fn alphanumeric(c: char) -> bool;

/// `char::is_alphanumeric` consults fixed Unicode tables: its answer depends
/// on the character alone. The tables are not restated here; the answer is
/// named [`alphanumeric`].
pub assume_specification[ char::is_alphanumeric ](c: char) -> (answer: bool)
    ensures
        answer == alphanumeric(c),
;

/// `String::push` appends one character to the end of the string and leaves
/// the characters before it as they were.
pub assume_specification[ String::push ](s: &mut String, c: char)
    ensures
        final(s)@ == old(s)@.push(c),
;

} // verus!
