//! Literals of the primitive types.

use crate::error::{ErrorKind, Failure, FailureModel};
use crate::float::{float_literal, Float};
use crate::number::{int_literal, parse_i32};
use crate::semantics::{bool_word, parsed};
use crate::text::{chars_of, is_word, spells, text_of};
use crate::value::{Value, ValueModel};
use vstd::prelude::*;

verus! {

/// The value of a literal of type `int`.
pub fn int_value(text: &[char]) -> (r: Option<Value>)
    ensures
        match int_literal(text@) {
            Some(n) => r is Some && r->0@ == ValueModel::Int(n),
            None => r is None,
        },
{
    match parse_i32(text) {
        Some(n) => Some(Value::Int(n)),
        None => None,
    }
}

/// The value of a literal of type `float`.
pub fn float_value(text: &[char]) -> (r: Option<Value>)
    ensures
        match float_literal(text@) {
            Some(f) => r is Some && r->0@ == ValueModel::Float(f),
            None => r is None,
        },
{
    match Float::parse(text) {
        Some(f) => Some(Value::Float(f)),
        None => None,
    }
}

/// The truth value that `text` writes in any case.
pub fn bool_value(text: &[char]) -> (r: Option<bool>)
    ensures
        r == bool_word(text@),
{
    let yes = chars_of("true");
    let no = chars_of("false");
    if spells(text, yes.as_slice()) {
        Some(true)
    } else if spells(text, no.as_slice()) {
        Some(false)
    } else {
        None
    }
}

/// The value that `text` writes as a literal of the primitive type `kind`.
pub fn parse_literal(text: &[char], kind: &[char]) -> (r: Option<Value>)
    ensures
        match parsed(text@, kind@) {
            Some(v) => r is Some && r->0@ == v,
            None => r is None,
        },
{
    if is_word(kind, "int") {
        int_value(text)
    } else if is_word(kind, "float") {
        float_value(text)
    } else if is_word(kind, "str") {
        Some(Value::Str(text_of(text)))
    } else if is_word(kind, "bool") {
        match bool_value(text) {
            Some(b) => Some(Value::Bool(b)),
            None => None,
        }
    } else {
        None
    }
}

/// A kind of value that every value can be cast to.
pub trait ToValue {
    /// `value` as a value of this kind.
    fn to_value(value: Value) -> Value;
}

impl Value {
    /// The value cast to the kind `T`, as `T` itself defines it.
    pub fn cast_to<T: ToValue>(self) -> (r: Value)
        ensures
            call_ensures(T::to_value, (self,), r),
    {
        T::to_value(self)
    }

    /// The integer that `input` writes: an optional sign and decimal digits, within
    /// 32 bits.
    pub fn parse_int(input: &str) -> (r: Option<Value>)
        ensures
            match int_literal(input@) {
                Some(n) => r is Some && r->0@ == ValueModel::Int(n),
                None => r is None,
            },
    {
        let text = chars_of(input);
        int_value(text.as_slice())
    }

    /// The floating-point value that `input` writes.
    pub fn parse_float(input: &str) -> (r: Option<Value>)
        ensures
            match float_literal(input@) {
                Some(f) => r is Some && r->0@ == ValueModel::Float(f),
                None => r is None,
            },
    {
        let text = chars_of(input);
        float_value(text.as_slice())
    }

    /// The string `input` itself.
    pub fn parse_str(input: &str) -> (r: Option<Value>)
        ensures
            r is Some,
            r->0@ == ValueModel::Str(input@),
    {
        let text = chars_of(input);
        Some(Value::Str(text_of(text.as_slice())))
    }

    /// The truth value that `input` writes: `true` or `false`, in any case.
    pub fn parse_bool(input: &str) -> (r: Option<Value>)
        ensures
            match bool_word(input@) {
                Some(b) => r is Some && r->0@ == ValueModel::Bool(b),
                None => r is None,
            },
    {
        let text = chars_of(input);
        match bool_value(text.as_slice()) {
            Some(b) => Some(Value::Bool(b)),
            None => None,
        }
    }

    /// The value that `input` writes as a literal of the primitive type `type_of`,
    /// one of `int`, `float`, `str` and `bool`; a `TypeError` that holds `input` where
    /// it writes none.
    pub fn parse(input: &str, type_of: &str) -> (r: Result<Value, Failure>)
        ensures
            match parsed(input@, type_of@) {
                Some(v) => r is Ok && r->Ok_0@ == v,
                None => r is Err && r->Err_0@ == (FailureModel {
                    kind: ErrorKind::TypeError,
                    index: None,
                    text: input@,
                }),
            },
    {
        let text = chars_of(input);
        let kind = chars_of(type_of);
        match parse_literal(text.as_slice(), kind.as_slice()) {
            Some(v) => Ok(v),
            None => Err(
                Failure { kind: ErrorKind::TypeError, index: None, text: text_of(text.as_slice()) },
            ),
        }
    }
}

} // verus!
