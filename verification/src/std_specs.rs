//! Contracts for the functions of std that the escaper calls and vstd does
//! not cover. Verus takes them on trust: nothing in this file is proved.

use vstd::prelude::*;
use vstd::utf8::*;

verus! {

/// `char::len_utf8` of std: the number of bytes that the character takes
/// when encoded as UTF-8, which is the length of its scalar's encoding.
pub assume_specification[ char::len_utf8 ](c: char) -> (width: usize)
    ensures
        width == encode_scalar(c as u32).len(),
;

/// `String::with_capacity` of std: a new string that holds no character.
/// A capacity above `isize::MAX` is left out: std panics on it.
pub assume_specification[ String::with_capacity ](capacity: usize) -> (s: String)
    requires
        capacity <= isize::MAX,
    ensures
        s@ == Seq::<char>::empty(),
;

} // verus!
