//! The two character-level conversions between `String` and `Vec<char>`
//! that the codec is built on.

use vstd::prelude::*;

verus! {

/// Relies on `str::chars`: iterating a string yields exactly its characters
/// in order.
#[verifier::external_body]
pub fn chars_of(s: &str) -> (r: Vec<char>)
    ensures
        r@ == s@,
{
    s.chars().collect()
}

/// Relies on `String::from_iter` over `char`: collecting characters yields
/// the string of exactly those characters in order.
#[verifier::external_body]
pub fn string_from_chars(v: &Vec<char>) -> (r: String)
    ensures
        r@ == v@,
{
    v.iter().collect()
}

} // verus!
