//! Conversions between text and the character sequences the tokenizer scans.
//!
//! The tokenizer works over a vector of characters; the input arrives as
//! `&str` and token payloads leave as `String`.  Both conversions are
//! verified loops; only the single-character append on `String` is assumed.

use vstd::prelude::*;
use vstd::std_specs::iter::IteratorSpec;

verus! {

broadcast use vstd::string::group_string_axioms;

/// Relies on `String::push`: it appends exactly the given character to the
/// end of the string.
pub assume_specification[ String::push ](s: &mut String, c: char)
    ensures
        final(s)@ == old(s)@.push(c),
;

/// The collected characters, in order, as a `String`.
pub fn chars_to_string(v: &Vec<char>) -> (s: String)
    ensures
        s@ == v@,
{
    let mut s = String::new();
    let mut i: usize = 0;
    while i < v.len()
        invariant
            i <= v.len(),
            s@ == v@.subrange(0, i as int),
        decreases v.len() - i,
    {
        s.push(v[i]);
        i = i + 1;
        assert(s@ =~= v@.subrange(0, i as int));
    }
    assert(s@ =~= v@);
    s
}

/// The input text, in order, as a vector of characters.
pub fn text_to_chars(text: &str) -> (v: Vec<char>)
    ensures
        v@ == text@,
{
    let mut v: Vec<char> = Vec::new();
    let mut it = text.chars();
    proof {
        assert(vstd::string::spec_iter(text).remaining() == text@);
    }
    loop
        invariant
            v@ + it.remaining() == text@,
            it.decrease() is Some,
        ensures
            v@ == text@,
        decreases it.decrease()->0,
    {
        match it.next() {
            Some(c) => {
                v.push(c);
                assert(v@ + it.remaining() =~= text@);
            },
            None => {
                assert(v@ =~= text@);
                break ;
            },
        }
    }
    v
}

} // verus!
