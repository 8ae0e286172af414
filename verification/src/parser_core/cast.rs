//! Casts between the kinds of token values.

use crate::float::{
    float_literal, float_of_int, float_text, truncated, truncated_unsigned, Float,
};
use crate::number::{int_literal, int_text, parse_i32, render_i32};
use crate::parser_core::value::{one_byte, NounModel, Value};
use crate::text::{chars_of, text_of};
use vstd::prelude::*;

verus! {

/// Whether `n` is the number of a character: a Unicode scalar value.
pub open spec fn is_scalar(n: int) -> bool {
    0 <= n <= 0xD7FF || 0xE000 <= n <= 0x10FFFF
}

/// `char::from_u32` of std: the character with the number `n`, where `n` is a Unicode
/// scalar value, and none otherwise.
pub assume_specification[ char::from_u32 ](n: u32) -> (r: Option<char>)
    ensures
        r is Some == is_scalar(n as int),
        r matches Some(c) ==> c as int == n as int,
;

/// A value cast to the kind that `T` stands for.
pub trait CastTo<T> {
    /// What the value is as that kind.
    spec fn cast(v: NounModel) -> Option<NounModel>;

    /// The value as that kind, if it can be one.
    fn cast_to(&self) -> (r: Option<Value>)
        ensures
            match (r, Self::cast(self.noun())) {
                (Some(a), Some(b)) => a@ == b,
                (None, None) => true,
                _ => false,
            },
    ;

    /// The model of the value.
    spec fn noun(&self) -> NounModel;
}

/// The number of a character as a 32-bit integer.
fn code_of(c: char) -> (n: i32)
    ensures
        n == c as int,
{
    (c as u32) as i32
}

/// The character with the number `n`, as a value.
fn char_value(n: u32) -> (r: Option<Value>)
    ensures
        r is Some == is_scalar(n as int),
        r matches Some(v) ==> v@ matches NounModel::Char(c) && c as int == n as int,
{
    match char::from_u32(n) {
        Some(c) => Some(Value::Char(c)),
        None => None,
    }
}

/// The 32-bit integer `n` taken as an unsigned one, modulo two to the power 32.
pub open spec fn wrapped(n: int) -> int {
    if n < 0 {
        n + 0x1_0000_0000
    } else {
        n
    }
}

impl CastTo<i32> for Value {
    /// An integer is itself; a string is the integer that it writes; a character is
    /// its number; a float is cut off at the decimal point.
    open spec fn cast(v: NounModel) -> Option<NounModel> {
        match v {
            NounModel::Int(n) => Some(NounModel::Int(n)),
            NounModel::Str(s) => match int_literal(s) {
                Some(n) => Some(NounModel::Int(n)),
                None => None,
            },
            NounModel::Char(c) => Some(NounModel::Int(c as int)),
            NounModel::Float(f) => Some(NounModel::Int(truncated(f))),
            NounModel::VarName(_) => None,
            NounModel::Undefined => None,
        }
    }

    open spec fn noun(&self) -> NounModel {
        self@
    }

    fn cast_to(&self) -> (r: Option<Value>) {
        match self {
            Value::Int(n) => Some(Value::Int(*n)),
            Value::Str(s) => {
                let text = chars_of(s.as_str());
                match parse_i32(text.as_slice()) {
                    Some(n) => Some(Value::Int(n)),
                    None => None,
                }
            },
            Value::Char(c) => Some(Value::Int(code_of(*c))),
            Value::Float(f) => Some(Value::Int(f.truncate())),
            Value::VarName(_) => None,
            Value::Undefined => None,
        }
    }
}

impl CastTo<Float> for Value {
    /// An integer is the float of its value; a string is the float that it writes; a
    /// character is the float of its number; a float is itself.
    open spec fn cast(v: NounModel) -> Option<NounModel> {
        match v {
            NounModel::Int(n) => Some(NounModel::Float(float_of_int(n))),
            NounModel::Str(s) => match float_literal(s) {
                Some(f) => Some(NounModel::Float(f)),
                None => None,
            },
            NounModel::Char(c) => Some(NounModel::Float(float_of_int(c as int))),
            NounModel::Float(f) => Some(NounModel::Float(f)),
            NounModel::VarName(_) => None,
            NounModel::Undefined => None,
        }
    }

    open spec fn noun(&self) -> NounModel {
        self@
    }

    fn cast_to(&self) -> (r: Option<Value>) {
        match self {
            Value::Int(n) => Some(Value::Float(Float::from_int(*n))),
            Value::Str(s) => {
                let text = chars_of(s.as_str());
                match Float::parse(text.as_slice()) {
                    Some(f) => Some(Value::Float(f)),
                    None => None,
                }
            },
            Value::Char(c) => Some(Value::Float(Float::from_int(code_of(*c)))),
            Value::Float(f) => Some(Value::Float(f.clone())),
            Value::VarName(_) => None,
            Value::Undefined => None,
        }
    }
}

impl CastTo<String> for Value {
    /// Every value but `Undefined` is the string of its text; the name of a variable
    /// is the string of the name.
    open spec fn cast(v: NounModel) -> Option<NounModel> {
        match v {
            NounModel::Int(n) => Some(NounModel::Str(int_text(n))),
            NounModel::Str(s) => Some(NounModel::Str(s)),
            NounModel::Char(c) => Some(NounModel::Str(seq![c])),
            NounModel::Float(f) => Some(NounModel::Str(float_text(f))),
            NounModel::VarName(s) => Some(NounModel::Str(s)),
            NounModel::Undefined => None,
        }
    }

    open spec fn noun(&self) -> NounModel {
        self@
    }

    fn cast_to(&self) -> (r: Option<Value>) {
        match self {
            Value::Int(n) => {
                let text = render_i32(*n);
                Some(Value::Str(text_of(text.as_slice())))
            },
            Value::Str(s) => Some(Value::Str(s.clone())),
            Value::Char(c) => {
                let mut text: Vec<char> = Vec::new();
                text.push(*c);
                assert(text@ =~= seq![*c]);
                Some(Value::Str(text_of(text.as_slice())))
            },
            Value::Float(f) => {
                let text = f.render();
                Some(Value::Str(text_of(text.as_slice())))
            },
            Value::VarName(v) => Some(Value::Str(v.clone())),
            Value::Undefined => None,
        }
    }
}

impl CastTo<char> for Value {
    /// An integer, taken as an unsigned one, or a float, cut off at the decimal point,
    /// is the character with that number, if there is one; a string of one ASCII
    /// character is that character; a character is itself.
    open spec fn cast(v: NounModel) -> Option<NounModel> {
        match v {
            NounModel::Int(n) => if is_scalar(wrapped(n)) {
                Some(NounModel::Char(wrapped(n) as char))
            } else {
                None
            },
            NounModel::Str(s) => if s.len() == 1 && one_byte(s[0]) {
                Some(NounModel::Char(s[0]))
            } else {
                None
            },
            NounModel::Char(c) => Some(NounModel::Char(c)),
            NounModel::Float(f) => if is_scalar(truncated_unsigned(f)) {
                Some(NounModel::Char(truncated_unsigned(f) as char))
            } else {
                None
            },
            NounModel::VarName(_) => None,
            NounModel::Undefined => None,
        }
    }

    open spec fn noun(&self) -> NounModel {
        self@
    }

    fn cast_to(&self) -> (r: Option<Value>) {
        match self {
            Value::Int(n) => {
                let unsigned: u32 = if *n < 0 {
                    ((*n as i64) + 0x1_0000_0000) as u32
                } else {
                    *n as u32
                };
                char_value(unsigned)
            },
            Value::Str(s) => {
                let text = chars_of(s.as_str());
                if text.len() == 1 && crate::parser_core::value::is_one_byte(text[0]) {
                    Some(Value::Char(text[0]))
                } else {
                    None
                }
            },
            Value::Char(c) => Some(Value::Char(*c)),
            Value::Float(f) => char_value(f.truncate_unsigned()),
            Value::VarName(_) => None,
            Value::Undefined => None,
        }
    }
}

impl CastTo<()> for Value {
    /// Every value is `Undefined`.
    open spec fn cast(v: NounModel) -> Option<NounModel> {
        Some(NounModel::Undefined)
    }

    open spec fn noun(&self) -> NounModel {
        self@
    }

    fn cast_to(&self) -> (r: Option<Value>) {
        Some(Value::Undefined)
    }
}

} // verus!
