//! Text helpers shared by the scanner, the compiler and the virtual
//! machine: conversions between `String` and character vectors, and a
//! verified decimal formatter for line numbers.

use vstd::prelude::*;
use vstd::std_specs::iter::IteratorSpec;

verus! {

broadcast use vstd::string::axiom_spec_iter, vstd::string::next_postcondition;

/// The characters of `s`, as a vector.
pub fn str_to_chars(s: &str) -> (r: Vec<char>)
    ensures
        r@ == s@,
{
    let mut it = s.chars();
    let mut out: Vec<char> = Vec::new();
    loop
        invariant
            out@ + it.remaining() == s@,
            vstd::std_specs::iter::IteratorSpec::obeys_prophetic_iter_laws(&it),
            it.decrease() is Some,
        decreases it.decrease()->0,
    {
        match it.next() {
            Some(c) => {
                out.push(c);
            },
            None => {
                assert(out@ =~= s@);
                return out;
            },
        }
    }
}

/// Relies on `String`'s `FromIterator` impl: collecting characters builds
/// the string whose view is exactly that character sequence.
#[verifier::external_body]
pub fn chars_to_string(v: &[char]) -> (r: String)
    ensures
        r@ == v@,
{
    v.iter().collect()
}

/// The decimal digit character for `d`.
pub open spec fn dec_digit(d: nat) -> char {
    if d == 0 {
        '0'
    } else if d == 1 {
        '1'
    } else if d == 2 {
        '2'
    } else if d == 3 {
        '3'
    } else if d == 4 {
        '4'
    } else if d == 5 {
        '5'
    } else if d == 6 {
        '6'
    } else if d == 7 {
        '7'
    } else if d == 8 {
        '8'
    } else {
        '9'
    }
}

/// The decimal notation of `n`: its digits, most significant first, with
/// no sign and no leading zero.
pub open spec fn dec_text(n: nat) -> Seq<char>
    decreases n,
{
    if n < 10 {
        seq![dec_digit(n)]
    } else {
        dec_text(n / 10).push(dec_digit(n % 10))
    }
}

fn digit_char(d: u64) -> (r: char)
    requires
        d < 10,
    ensures
        r == dec_digit(d as nat),
{
    if d == 0 {
        '0'
    } else if d == 1 {
        '1'
    } else if d == 2 {
        '2'
    } else if d == 3 {
        '3'
    } else if d == 4 {
        '4'
    } else if d == 5 {
        '5'
    } else if d == 6 {
        '6'
    } else if d == 7 {
        '7'
    } else if d == 8 {
        '8'
    } else {
        '9'
    }
}

/// The decimal notation of `n`.
pub fn dec_string(n: u64) -> (r: String)
    ensures
        r@ == dec_text(n as nat),
{
    let mut digits: Vec<char> = Vec::new();
    let mut m: u64 = n;
    while m >= 10
        invariant
            dec_text(n as nat) == dec_text(m as nat) + digits@,
        decreases m,
    {
        let d = digit_char(m % 10);
        digits.insert(0, d);
        proof {
            assert(dec_text(m as nat) == dec_text(m as nat / 10).push(dec_digit(m as nat % 10)));
            assert(dec_text(m as nat / 10).push(dec_digit(m as nat % 10)) + digits@.drop_first()
                =~= dec_text(m as nat / 10) + digits@);
        }
        m = m / 10;
    }
    let d = digit_char(m);
    digits.insert(0, d);
    proof {
        assert(dec_text(m as nat) + digits@.drop_first() =~= digits@);
    }
    chars_to_string(digits.as_slice())
}

/// The decimal notation of a `usize` count or line number.
pub fn usize_string(n: usize) -> (r: String)
    ensures
        r@ == dec_text(n as nat),
{
    dec_string(n as u64)
}

} // verus!
