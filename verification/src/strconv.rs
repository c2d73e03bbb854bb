//! Conversions between `String` and `Vec<char>`.
//!
//! The formatting engine analyses text character by character; these two
//! wrappers move between the borrowed string world and the character-vector
//! world without changing the character sequence.

use vstd::prelude::*;

verus! {

/// Relies on `str::chars` (std): iterating a string yields exactly the
/// characters of its view, in order.
#[verifier::external_body]
pub fn str_chars(s: &str) -> (v: Vec<char>)
    ensures
        v@ == s@,
{
    s.chars().collect()
}

/// Relies on `String`'s `FromIterator<char>` impl (std): collecting
/// characters builds the string with exactly those characters, in order.
#[verifier::external_body]
pub fn chars_string(v: &Vec<char>) -> (s: String)
    ensures
        s@ == v@,
{
    v.iter().collect()
}

} // verus!
