//! What a token of a line of arithmetic stands for.

use crate::float::{float_literal, is_whole, truncated, Float, FloatModel};

use crate::text::{chars_of, text_of};
use vstd::prelude::*;
use vstd::slice::slice_subrange;

verus! {

/// The value of a token.
#[derive(Debug)]
pub enum Value {
    Int(i32),
    Str(String),
    Char(char),
    Float(Float),
    VarName(String),
    Undefined,
}

/// The model of the value of a token.
pub enum NounModel {
    Int(int),
    Str(Seq<char>),
    Char(char),
    Float(FloatModel),
    VarName(Seq<char>),
    Undefined,
}

impl View for Value {
    type V = NounModel;

    open spec fn view(&self) -> NounModel {
        match self {
            Value::Int(n) => NounModel::Int(*n as int),
            Value::Str(s) => NounModel::Str(s@),
            Value::Char(c) => NounModel::Char(*c),
            Value::Float(f) => NounModel::Float(f@),
            Value::VarName(s) => NounModel::VarName(s@),
            Value::Undefined => NounModel::Undefined,
        }
    }
}

/// Whether `c` is a letter or a number in the sense of Unicode, as
/// `char::is_alphanumeric` of std tells.
pub uninterp spec fn alphanumeric(c: char) -> bool;

/// `char::is_alphanumeric` of std: whether the character is alphabetic or numeric in
/// Unicode. The result depends on the character alone.
pub assume_specification[ char::is_alphanumeric ](c: char) -> (r: bool)
    ensures
        r == alphanumeric(c),
;

/// Whether `s` is made of letters, numbers and underscores only.
pub open spec fn is_name(s: Seq<char>) -> bool {
    forall|i: int| 0 <= i < s.len() ==> alphanumeric(#[trigger] s[i]) || s[i] == '_'
}

/// Whether `s` stands between two marks `q` of its own.
pub open spec fn is_quoted(s: Seq<char>, q: char) -> bool {
    s.len() >= 2 && s[0] == q && s.last() == q
}

/// Whether the character `c` is one byte long in UTF-8.
pub open spec fn one_byte(c: char) -> bool {
    (c as u32) < 0x80
}

/// What the text of a token stands for.
///
/// A text between quotation marks is a string. A text between apostrophes is a
/// character where one ASCII character stands between them, and a string otherwise.
/// A floating-point literal is an integer where it has no fractional part, and a float
/// otherwise. A text of letters, numbers and underscores is the name of a variable.
/// Nothing else stands for anything.
pub open spec fn classify(s: Seq<char>) -> NounModel {
    let inner = s.subrange(1, s.len() - 1);
    if is_quoted(s, '"') {
        NounModel::Str(inner)
    } else if is_quoted(s, '\'') {
        if inner.len() == 1 && one_byte(inner[0]) {
            NounModel::Char(inner[0])
        } else {
            NounModel::Str(inner)
        }
    } else {
        match float_literal(s) {
            Some(f) => if is_whole(f) {
                NounModel::Int(truncated(f))
            } else {
                NounModel::Float(f)
            },
            None => if is_name(s) {
                NounModel::VarName(s)
            } else {
                NounModel::Undefined
            },
        }
    }
}

/// The name of the kind of a value.
pub open spec fn kind_of(v: NounModel) -> Seq<char> {
    match v {
        NounModel::Int(_) => "int"@,
        NounModel::Str(_) => "str"@,
        NounModel::Char(_) => "char"@,
        NounModel::Float(_) => "float"@,
        NounModel::VarName(_) => "var"@,
        NounModel::Undefined => "undefined"@,
    }
}

/// Whether `v` is made of letters, numbers and underscores only.
fn only_name_chars(v: &[char]) -> (r: bool)
    ensures
        r == is_name(v@),
{
    let mut i: usize = 0;
    while i < v.len()
        invariant
            i <= v.len(),
            forall|k: int| 0 <= k < i ==> alphanumeric(#[trigger] v@[k]) || v@[k] == '_',
        decreases v.len() - i,
    {
        let c = v[i];
        if !(c.is_alphanumeric() || c == '_') {
            return false;
        }
        i += 1;
    }
    true
}

/// Whether the character `c` is one byte long in UTF-8.
pub fn is_one_byte(c: char) -> (r: bool)
    ensures
        r == one_byte(c),
{
    (c as u32) < 0x80
}

/// What the text of a token stands for.
pub fn classify_text(v: &[char]) -> (r: Value)
    ensures
        r@ == classify(v@),
{
    let n = v.len();
    if n >= 2 && v[0] == '"' && v[n - 1] == '"' {
        return Value::Str(text_of(slice_subrange(v, 1, n - 1)));
    }
    if n >= 2 && v[0] == '\'' && v[n - 1] == '\'' {
        let inner = slice_subrange(v, 1, n - 1);
        if inner.len() == 1 && is_one_byte(inner[0]) {
            return Value::Char(inner[0]);
        }
        return Value::Str(text_of(inner));
    }
    match Float::parse(v) {
        Some(f) => {
            if f.whole() {
                Value::Int(f.truncate())
            } else {
                Value::Float(f)
            }
        },
        None => {
            if only_name_chars(v) {
                Value::VarName(text_of(v))
            } else {
                Value::Undefined
            }
        },
    }
}

impl Value {
    /// What the text `val` of a token stands for.
    pub fn evaluate(val: String) -> (r: Value)
        ensures
            r@ == classify(val@),
    {
        let v = chars_of(val.as_str());
        classify_text(v.as_slice())
    }

    /// The name of the kind of `val`, as a string value.
    pub fn get_type(val: Value) -> (r: Value)
        ensures
            r@ == NounModel::Str(kind_of(val@)),
    {
        let name = match val {
            Value::Int(_) => "int",
            Value::Str(_) => "str",
            Value::Char(_) => "char",
            Value::Float(_) => "float",
            Value::VarName(_) => "var",
            Value::Undefined => "undefined",
        };
        let v = chars_of(name);
        Value::Str(text_of(v.as_slice()))
    }
}

impl Clone for Value {
    fn clone(&self) -> (r: Self)
        ensures
            r@ == self@,
    {
        match self {
            Value::Int(n) => Value::Int(*n),
            Value::Str(s) => Value::Str(s.clone()),
            Value::Char(c) => Value::Char(*c),
            Value::Float(f) => Value::Float(f.clone()),
            Value::VarName(s) => Value::VarName(s.clone()),
            Value::Undefined => Value::Undefined,
        }
    }
}

} // verus!
