//! Lox runtime values: a tagged sum of a number (held as IEEE 754 bits),
//! a boolean, nil, and an interned string. A string value carries the
//! identity that the interner gave its text, so equality of string values
//! is identity equality.

pub mod string_intern;

use crate::number::{num_eq_bits, num_text};
use vstd::prelude::*;

pub use string_intern::{has_live, live_id, StringInterns};

verus! {

/// An interned immutable string: its text together with the identity that
/// the interner assigned. The interner hands out one identity per text, so
/// two interned strings from one interner are textually equal exactly when
/// their identities are equal.
#[derive(Debug)]
pub struct InternString {
    pub id: usize,
    pub text: String,
}

/// The mathematical form of a runtime value.
pub enum AbsValue {
    Num(u64),
    Truth(bool),
    Text(usize, Seq<char>),
    NilV,
}

/// A Lox runtime value.
#[derive(Debug)]
pub enum Value {
    Number(u64),
    Bool(bool),
    Str(InternString),
    Nil,
}

impl View for InternString {
    type V = (usize, Seq<char>);

    open spec fn view(&self) -> (usize, Seq<char>) {
        (self.id, self.text@)
    }
}

impl View for Value {
    type V = AbsValue;

    open spec fn view(&self) -> AbsValue {
        match self {
            Value::Number(bits) => AbsValue::Num(*bits),
            Value::Bool(b) => AbsValue::Truth(*b),
            Value::Str(s) => AbsValue::Text(s.id, s.text@),
            Value::Nil => AbsValue::NilV,
        }
    }
}

/// A value is falsey exactly when it is nil or the boolean false.
pub open spec fn spec_falsey(v: AbsValue) -> bool {
    v is NilV || v == AbsValue::Truth(false)
}

/// Value equality: numbers by IEEE 754 equality, booleans and nil by tag,
/// strings by identity; values of different tags are never equal.
pub open spec fn spec_value_eq(a: AbsValue, b: AbsValue) -> bool {
    match (a, b) {
        (AbsValue::Num(x), AbsValue::Num(y)) => num_eq_bits(x, y),
        (AbsValue::Truth(x), AbsValue::Truth(y)) => x == y,
        (AbsValue::Text(i, _), AbsValue::Text(j, _)) => i == j,
        (AbsValue::NilV, AbsValue::NilV) => true,
        _ => false,
    }
}

/// The textual form of a value, as the `print` statement writes it.
pub open spec fn spec_value_text(v: AbsValue) -> Seq<char> {
    match v {
        AbsValue::Num(bits) => num_text(bits),
        AbsValue::Truth(b) => if b {
            "true"@
        } else {
            "false"@
        },
        AbsValue::Text(_, s) => s,
        AbsValue::NilV => "nil"@,
    }
}

impl InternString {
    /// A copy that keeps both the text and the identity.
    pub fn duplicate(&self) -> (r: InternString)
        ensures
            r@ == self@,
    {
        InternString { id: self.id, text: self.text.clone() }
    }
}

impl Value {
    /// Whether this value counts as false in a boolean context.
    pub fn is_falsey(&self) -> (r: bool)
        ensures
            r == spec_falsey(self@),
    {
        match self {
            Value::Nil => true,
            Value::Bool(b) => !*b,
            _ => false,
        }
    }

    /// A copy with the same view.
    pub fn duplicate(&self) -> (r: Value)
        ensures
            r@ == self@,
    {
        match self {
            Value::Number(bits) => Value::Number(*bits),
            Value::Bool(b) => Value::Bool(*b),
            Value::Str(s) => Value::Str(s.duplicate()),
            Value::Nil => Value::Nil,
        }
    }

    /// The text that `print` writes for this value.
    pub fn to_text(&self) -> (r: String)
        ensures
            r@ == spec_value_text(self@),
    {
        match self {
            Value::Number(bits) => crate::number::num_to_text(*bits),
            Value::Bool(b) => if *b {
                "true".to_owned()
            } else {
                "false".to_owned()
            },
            Value::Str(s) => s.text.clone(),
            Value::Nil => "nil".to_owned(),
        }
    }
}

/// Value equality, as the `==` operator of the language compares values.
pub fn value_eq(a: &Value, b: &Value) -> (r: bool)
    ensures
        r == spec_value_eq(a@, b@),
{
    match (a, b) {
        (Value::Number(x), Value::Number(y)) => crate::number::num_eq(*x, *y),
        (Value::Bool(x), Value::Bool(y)) => *x == *y,
        (Value::Str(x), Value::Str(y)) => x.id == y.id,
        (Value::Nil, Value::Nil) => true,
        _ => false,
    }
}

impl PartialEq for Value {
    fn eq(&self, other: &Value) -> (r: bool) {
        value_eq(self, other)
    }
}

impl vstd::std_specs::cmp::PartialEqSpecImpl for Value {
    open spec fn obeys_eq_spec() -> bool {
        true
    }

    open spec fn eq_spec(&self, other: &Value) -> bool {
        spec_value_eq(self@, other@)
    }
}

} // verus!
