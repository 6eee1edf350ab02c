//! Lox numbers are IEEE 754 double-precision values. Verified code holds
//! them as their bit patterns (`u64`); the operations that need a
//! floating-point implementation stand behind trusted wrappers that call
//! the `rustc_apfloat` software implementation of IEEE 754 binary64
//! arithmetic. Each wrapper's result is a named, uninterpreted function
//! of the operand bits alone.

use rustc_apfloat::ieee::Double;
use rustc_apfloat::Float;
use vstd::prelude::*;

verus! {

/// The bits of the IEEE 754 binary64 sum of the numbers held as `a` and `b`.
pub uninterp spec fn num_add_bits(a: u64, b: u64) -> u64;

/// The bits of the difference of the numbers held as `a` and `b`.
pub uninterp spec fn num_sub_bits(a: u64, b: u64) -> u64;

/// The bits of the product of the numbers held as `a` and `b`.
pub uninterp spec fn num_mul_bits(a: u64, b: u64) -> u64;

/// The bits of the quotient of the numbers held as `a` and `b`.
pub uninterp spec fn num_div_bits(a: u64, b: u64) -> u64;

/// The bits of the negation of the number held as `a`: IEEE 754
/// negation flips the sign bit and nothing else.
pub open spec fn num_neg_bits(a: u64) -> u64 {
    a ^ 0x8000_0000_0000_0000u64
}

/// Whether the number held as `a` compares less than the one held as `b`.
pub uninterp spec fn num_lt_bits(a: u64, b: u64) -> bool;

/// Whether the number held as `a` compares greater than the one held as `b`.
pub uninterp spec fn num_gt_bits(a: u64, b: u64) -> bool;

/// Whether the numbers held as `a` and `b` compare equal under IEEE 754
/// equality (not bit equality: zeroes of either sign are equal, and no
/// NaN equals anything).
pub uninterp spec fn num_eq_bits(a: u64, b: u64) -> bool;

/// The bits of the number that a numeric literal with the given text
/// denotes.
pub uninterp spec fn num_of_lexeme(s: Seq<char>) -> u64;

/// The textual form of the number held as `bits`.
pub uninterp spec fn num_text(bits: u64) -> Seq<char>;

/// Relies on `rustc_apfloat::ieee::Double` addition: the result depends on
/// the operand bits alone.
#[verifier::external_body]
pub fn num_add(a: u64, b: u64) -> (r: u64)
    ensures
        r == num_add_bits(a, b),
{
    let x = Double::from_bits(a as u128);
    let y = Double::from_bits(b as u128);
    (x + y).value.to_bits() as u64
}

/// Relies on `rustc_apfloat::ieee::Double` subtraction: the result depends
/// on the operand bits alone.
#[verifier::external_body]
pub fn num_sub(a: u64, b: u64) -> (r: u64)
    ensures
        r == num_sub_bits(a, b),
{
    let x = Double::from_bits(a as u128);
    let y = Double::from_bits(b as u128);
    (x - y).value.to_bits() as u64
}

/// Relies on `rustc_apfloat::ieee::Double` multiplication: the result
/// depends on the operand bits alone.
#[verifier::external_body]
pub fn num_mul(a: u64, b: u64) -> (r: u64)
    ensures
        r == num_mul_bits(a, b),
{
    let x = Double::from_bits(a as u128);
    let y = Double::from_bits(b as u128);
    (x * y).value.to_bits() as u64
}

/// Relies on `rustc_apfloat::ieee::Double` division: the result depends on
/// the operand bits alone.
#[verifier::external_body]
pub fn num_div(a: u64, b: u64) -> (r: u64)
    ensures
        r == num_div_bits(a, b),
{
    let x = Double::from_bits(a as u128);
    let y = Double::from_bits(b as u128);
    (x / y).value.to_bits() as u64
}

/// Negation needs no floating-point unit: IEEE 754 negation is the
/// sign-bit flip that `num_neg_bits` states, so it is computed and
/// verified directly.
pub fn num_neg(a: u64) -> (r: u64)
    ensures
        r == num_neg_bits(a),
{
    a ^ 0x8000_0000_0000_0000u64
}

/// Relies on the `PartialOrd` impl of `rustc_apfloat::ieee::Double`, which
/// orders by IEEE 754 comparison; NaN compares less than nothing.
#[verifier::external_body]
pub fn num_lt(a: u64, b: u64) -> (r: bool)
    ensures
        r == num_lt_bits(a, b),
{
    let x = Double::from_bits(a as u128);
    let y = Double::from_bits(b as u128);
    x < y
}

/// Relies on the `PartialOrd` impl of `rustc_apfloat::ieee::Double`, which
/// orders by IEEE 754 comparison; NaN compares greater than nothing.
#[verifier::external_body]
pub fn num_gt(a: u64, b: u64) -> (r: bool)
    ensures
        r == num_gt_bits(a, b),
{
    let x = Double::from_bits(a as u128);
    let y = Double::from_bits(b as u128);
    x > y
}

/// Relies on the `PartialEq` impl of `rustc_apfloat::ieee::Double`, which
/// compares by IEEE 754 equality: zeroes of either sign are equal, and no
/// NaN equals anything.
#[verifier::external_body]
pub fn num_eq(a: u64, b: u64) -> (r: bool)
    ensures
        r == num_eq_bits(a, b),
{
    let x = Double::from_bits(a as u128);
    let y = Double::from_bits(b as u128);
    x == y
}

/// Relies on the `FromStr` impl of `rustc_apfloat::ieee::Double`, which
/// reads a decimal literal and rounds it to the nearest binary64 value;
/// the result depends on the text alone.
#[verifier::external_body]
pub fn num_from_lexeme(s: &str) -> (r: u64)
    requires
        is_number_lexeme(s@),
    ensures
        r == num_of_lexeme(s@),
{
    let parsed: Double =
        s.parse().unwrap_or(Double::ZERO);
    parsed.to_bits() as u64
}

/// Relies on the `Display` impl of `rustc_apfloat::ieee::Double`, which
/// writes a decimal form with enough digits to read back to the same
/// value, trailing zeroes dropped; an integral value prints without a
/// fractional part. The width asks for plain decimal notation up to ten
/// inserted zeroes; only values beyond that fall back to scientific
/// notation.
#[verifier::external_body]
pub fn num_to_text(bits: u64) -> (r: String)
    ensures
        r@ == num_text(bits),
{
    let x = Double::from_bits(bits as u128);
    format!("{x:10}")
}

/// The shape of a numeric literal: one or more digits, optionally followed
/// by a point and one or more digits.
pub open spec fn is_number_lexeme(s: Seq<char>) -> bool {
    exists|k: int|
        #![trigger s.subrange(0, k)]
        0 < k <= s.len() && all_digits(s.subrange(0, k)) && (k == s.len() || (k + 1 < s.len()
            && s[k] == '.' && all_digits(s.subrange(k + 1, s.len() as int))))
}

/// Every character of `s` is a decimal digit.
pub open spec fn all_digits(s: Seq<char>) -> bool {
    forall|i: int| 0 <= i < s.len() ==> ('0' <= #[trigger] s[i] && s[i] <= '9')
}

} // verus!
