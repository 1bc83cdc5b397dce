use vstd::prelude::*;

verus! {

/// Relies on `str::chars`: the iterator yields exactly the characters of
/// the string, in order.
#[verifier::external_body]
pub fn str_chars(s: &str) -> (r: Vec<char>)
    ensures
        r@ == s@,
{
    s.chars().collect()
}

/// Relies on `String`'s `FromIterator` over characters: collecting
/// characters concatenates them into a string holding exactly those
/// characters, in order.
#[verifier::external_body]
pub fn chars_string(v: &Vec<char>) -> (r: String)
    ensures
        r@ == v@,
{
    v.iter().collect()
}


/// Relies on `char::from_u32`: the result is `Some` exactly for Unicode
/// scalar values (at most 0x10FFFF and not a surrogate), and the character
/// returned has the argument as its numeric value.
#[verifier::external_body]
pub fn char_from_u32(v: u32) -> (r: Option<char>)
    ensures
        (v <= 0x10FFFF && !(0xD800 <= v && v <= 0xDFFF)) <==> r is Some,
        match r {
            Some(c) => c as u32 == v,
            None => true,
        },
{
    char::from_u32(v)
}

} // verus!
