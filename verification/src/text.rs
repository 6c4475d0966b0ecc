//! Small text helpers shared by the lexer and the evaluator.

use vstd::prelude::*;

verus! {

/// Relies on `String::push`: appends exactly one character at the end.
#[verifier::external_body]
pub fn push_char(s: &mut String, c: char)
    ensures
        final(s)@ == old(s)@.push(c),
{
    s.push(c)
}

/// Compares a string against a literal by text.
pub fn string_is(s: &String, lit: &str) -> (r: bool)
    ensures
        r == (s@ == lit@),
{
    let other = lit.to_owned();
    s.eq(&other)
}

/// Collects a string's characters into a vector.
#[verifier::loop_isolation(false)]
pub fn chars_of(s: &str) -> (r: Vec<char>)
    ensures
        r@ == s@,
{
    let n = s.unicode_len();
    let mut chars: Vec<char> = Vec::new();
    let mut i: usize = 0;
    while i < n
        invariant
            i <= n,
            n == s@.len(),
            chars@ == s@.take(i as int),
        decreases n - i,
    {
        let c = s.get_char(i);
        chars.push(c);
        proof {
            assert(chars@ =~= s@.take(i + 1 as int));
        }
        i += 1;
    }
    proof {
        assert(chars@ =~= s@);
    }
    chars
}

} // verus!
