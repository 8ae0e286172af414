//! The texts of a value: the one shown to a reader, the name of its kind, and the one
//! handed to an outside program.

use crate::float::float_text;
use crate::number::{int_text, render_i32};
use crate::text::{append, append_str, chars_of, text_of, texts};
use crate::value::{
    lemma_values_model, statements, Function, FunctionModel, Statement, StatementModel, Value,
    ValueModel, Verb,
};
use crate::value::values_model;
use vstd::prelude::*;

verus! {

#[verifier::external_type_specification]
#[verifier::external_body]
pub struct ExJsonError(serde_json::Error);

/// The lower-case hexadecimal digit for `n`, a number below sixteen.
pub open spec fn hex_digit(n: int) -> char {
    if n < 10 {
        (48 + n) as char
    } else {
        (87 + n) as char
    }
}

/// How a JSON string writes the character `c`.
pub open spec fn json_escape(c: char) -> Seq<char> {
    if c == '"' {
        seq!['\\', '"']
    } else if c == '\\' {
        seq!['\\', '\\']
    } else if c == '\u{8}' {
        seq!['\\', 'b']
    } else if c == '\t' {
        seq!['\\', 't']
    } else if c == '\n' {
        seq!['\\', 'n']
    } else if c == '\u{c}' {
        seq!['\\', 'f']
    } else if c == '\r' {
        seq!['\\', 'r']
    } else if (c as int) < 0x20 {
        seq!['\\', 'u', '0', '0', hex_digit(c as int / 16), hex_digit(c as int % 16)]
    } else {
        seq![c]
    }
}

/// The characters of `s` as a JSON string writes them.
pub open spec fn json_escaped(s: Seq<char>) -> Seq<char>
    decreases s.len(),
{
    if s.len() == 0 {
        Seq::empty()
    } else {
        json_escaped(s.drop_last()) + json_escape(s.last())
    }
}

/// The JSON string that holds `s`.
pub open spec fn json_string(s: Seq<char>) -> Seq<char> {
    seq!['"'] + json_escaped(s) + seq!['"']
}

/// `serde_json::to_string` on a string slice. It gives the JSON string that holds the
/// slice: between two quotation marks every character as it is, but the quotation mark,
/// the backslash and the control characters below U+0020, which are written as escapes,
/// the short ones where JSON has them and `\u00` with two lower-case hexadecimal digits
/// otherwise. It fails only where a value's own serialisation fails or a map has keys
/// that are no strings; a string slice is neither.
#[verifier::external_body]
fn json_text(s: &str) -> (r: Result<String, serde_json::Error>)
    ensures
        r is Ok,
        r->Ok_0@ == json_string(s@),
{
    serde_json::to_string(s)
}

/// The name under which a verb stands in JSON.
pub open spec fn verb_name(verb: Verb) -> Seq<char> {
    match verb {
        Verb::Assign => "Set"@,
        Verb::Return => "Return"@,
        Verb::Mark => "Mark"@,
        Verb::Do => "Do"@,
    }
}

/// The JSON strings of `items`, with commas between them.
pub open spec fn json_strings(items: Seq<Seq<char>>) -> Seq<char>
    decreases items.len(),
{
    if items.len() == 0 {
        Seq::empty()
    } else if items.len() == 1 {
        json_string(items[0])
    } else {
        json_strings(items.drop_last()) + seq![','] + json_string(items.last())
    }
}

/// The JSON object of a statement.
pub open spec fn statement_json(line: StatementModel) -> Seq<char> {
    "{\"verb\":\""@ + verb_name(line.verb) + "\",\"nouns\":["@ + json_strings(line.nouns) + "]}"@
}

/// The JSON objects of `lines`, with commas between them.
pub open spec fn statements_json(lines: Seq<StatementModel>) -> Seq<char>
    decreases lines.len(),
{
    if lines.len() == 0 {
        Seq::empty()
    } else if lines.len() == 1 {
        statement_json(lines[0])
    } else {
        statements_json(lines.drop_last()) + seq![','] + statement_json(lines.last())
    }
}

/// The JSON object of a function: its statements, then its parameters.
pub open spec fn function_json(f: FunctionModel) -> Seq<char> {
    "{\"lines\":["@ + statements_json(f.lines) + "],\"params\":["@ + json_strings(f.params)
        + "]}"@
}

/// The text of a value as a reader sees it.
pub open spec fn rendered(v: ValueModel) -> Seq<char>
    decreases v, 1int,
{
    match v {
        ValueModel::Int(n) => int_text(n),
        ValueModel::Float(f) => float_text(f),
        ValueModel::Str(s) => s,
        ValueModel::Bool(b) => if b {
            "true"@
        } else {
            "false"@
        },
        ValueModel::List(items) => seq!['['] + rendered_items(items) + seq![']'],
        ValueModel::FunctionRef(_) => "<ast>"@,
        ValueModel::EnvironmentRef(_) => "<environment>"@,
        ValueModel::Undefined => "undefined"@,
        ValueModel::Null => "null"@,
    }
}

/// The texts of `items`, with a comma and a space between them.
pub open spec fn rendered_items(items: Seq<ValueModel>) -> Seq<char>
    decreases items, 0int,
{
    if items.len() == 0 {
        Seq::empty()
    } else if items.len() == 1 {
        rendered(items[0])
    } else {
        rendered_items(items.drop_last()) + seq![',', ' '] + rendered(items.last())
    }
}

/// The name of the kind of a value.
pub open spec fn kind_name(v: ValueModel) -> Seq<char> {
    match v {
        ValueModel::Int(_) => "int"@,
        ValueModel::Float(_) => "float"@,
        ValueModel::Str(_) => "string"@,
        ValueModel::Bool(_) => "bool"@,
        ValueModel::List(_) => "list"@,
        ValueModel::FunctionRef(_) => "ast"@,
        ValueModel::EnvironmentRef(_) => "environment"@,
        ValueModel::Undefined => "undefined"@,
        ValueModel::Null => "null"@,
    }
}

/// The text of a value as an outside program receives it: a string between quotation
/// marks, a list between brackets with commas, a function as a JSON object, an
/// environment as `null`.
pub open spec fn serialized(v: ValueModel) -> Seq<char>
    decreases v, 1int,
{
    match v {
        ValueModel::Int(n) => int_text(n),
        ValueModel::Float(f) => float_text(f),
        ValueModel::Str(s) => seq!['"'] + s + seq!['"'],
        ValueModel::Bool(b) => if b {
            "true"@
        } else {
            "false"@
        },
        ValueModel::List(items) => seq!['['] + serialized_items(items) + seq![']'],
        ValueModel::FunctionRef(f) => function_json(f),
        ValueModel::EnvironmentRef(_) => "null"@,
        ValueModel::Undefined => "undefined"@,
        ValueModel::Null => "null"@,
    }
}

/// The serialised `items`, with commas between them.
pub open spec fn serialized_items(items: Seq<ValueModel>) -> Seq<char>
    decreases items, 0int,
{
    if items.len() == 0 {
        Seq::empty()
    } else if items.len() == 1 {
        serialized(items[0])
    } else {
        serialized_items(items.drop_last()) + seq![','] + serialized(items.last())
    }
}

/// Appends the JSON strings of `items`, with commas between them; false where the
/// JSON encoder failed.
fn write_json_strings(out: &mut Vec<char>, items: &Vec<String>) -> (done: bool)
    ensures
        done,
        final(out)@ == old(out)@ + json_strings(texts(items@)),
{
    let ghost all = texts(items@);
    let mut i: usize = 0;
    assert(all.take(0) =~= Seq::<Seq<char>>::empty());
    assert(out@ =~= old(out)@ + json_strings(all.take(0)));
    while i < items.len()
        invariant
            i <= items.len(),
            all == texts(items@),
            out@ == old(out)@ + json_strings(all.take(i as int)),
        decreases items.len() - i,
    {
        let ghost before = out@;
        if i > 0 {
            out.push(',');
        }
        match json_text(items[i].as_str()) {
            Ok(t) => {
                append_str(out, t.as_str());
            },
            Err(_) => {
                return false;
            },
        }
        proof {
            assert(all.take(i + 1).drop_last() == all.take(i as int));
            assert(all.take(i + 1).last() == items@[i as int]@);
            if i == 0 {
                assert(out@ =~= old(out)@ + json_strings(all.take(1)));
            } else {
                assert(out@ =~= old(out)@ + json_strings(all.take(i + 1)));
            }
        }
        i += 1;
    }
    assert(all.take(items.len() as int) == all);
    true
}

/// The name of a verb in JSON.
fn verb_word(verb: Verb) -> (r: &'static str)
    ensures
        r@ == verb_name(verb),
{
    match verb {
        Verb::Assign => "Set",
        Verb::Return => "Return",
        Verb::Mark => "Mark",
        Verb::Do => "Do",
    }
}

/// Appends the JSON object of a statement.
fn write_statement_json(out: &mut Vec<char>, line: &Statement) -> (done: bool)
    ensures
        done,
        final(out)@ == old(out)@ + statement_json(line@),
{
    append_str(out, "{\"verb\":\"");
    append_str(out, verb_word(line.verb));
    append_str(out, "\",\"nouns\":[");
    let done = write_json_strings(out, &line.nouns);
    append_str(out, "]}");
    assert(out@ =~= old(out)@ + statement_json(line@));
    done
}

/// Appends the JSON object of a function.
fn write_function_json(out: &mut Vec<char>, f: &Function) -> (done: bool)
    ensures
        done,
        final(out)@ == old(out)@ + function_json(f@),
{
    append_str(out, "{\"lines\":[");
    let ghost start = out@;
    let ghost all = statements(f.lines@);
    let mut done = true;
    let mut i: usize = 0;
    assert(all.take(0) =~= Seq::<StatementModel>::empty());
    assert(out@ =~= start + statements_json(all.take(0)));
    while i < f.lines.len()
        invariant
            i <= f.lines.len(),
            done,
            all == statements(f.lines@),
            out@ == start + statements_json(all.take(i as int)),
        decreases f.lines.len() - i,
    {
        if i > 0 {
            out.push(',');
        }
        let ok = write_statement_json(out, &f.lines[i]);
        done = done && ok;
        proof {
            assert(all.take(i + 1).drop_last() == all.take(i as int));
            assert(all.take(i + 1).last() == f.lines@[i as int]@);
            if i == 0 {
                assert(out@ =~= start + statements_json(all.take(1)));
            } else {
                assert(out@ =~= start + statements_json(all.take(i + 1)));
            }
        }
        i += 1;
    }
    assert(all.take(f.lines.len() as int) == all);
    append_str(out, "],\"params\":[");
    let ok = write_json_strings(out, &f.params);
    append_str(out, "]}");
    assert(out@ =~= old(out)@ + function_json(f@));
    done && ok
}

/// Appends the texts of `items`, with a comma and a space between them.
fn write_rendered_items(out: &mut Vec<char>, items: &Vec<Value>)
    ensures
        final(out)@ == old(out)@ + rendered_items(values_model(items@)),
    decreases items,
{
    let ghost all = values_model(items@);
    proof {
        lemma_values_model(items@);
    }
    let mut i: usize = 0;
    assert(all.take(0) =~= Seq::<ValueModel>::empty());
    assert(out@ =~= old(out)@ + rendered_items(all.take(0)));
    while i < items.len()
        invariant
            i <= items.len(),
            all == values_model(items@),
            all.len() == items.len(),
            forall|k: int| 0 <= k < items.len() ==> all[k] == #[trigger] items@[k]@,
            out@ == old(out)@ + rendered_items(all.take(i as int)),
        decreases items.len() - i,
    {
        if i > 0 {
            out.push(',');
            out.push(' ');
        }
        items[i].write_rendered(out);
        proof {
            assert(all.take(i + 1).drop_last() == all.take(i as int));
            assert(all.take(i + 1).last() == items@[i as int]@);
            if i == 0 {
                assert(out@ =~= old(out)@ + rendered_items(all.take(1)));
            } else {
                assert(out@ =~= old(out)@ + rendered_items(all.take(i + 1)));
            }
        }
        i += 1;
    }
    assert(all.take(items.len() as int) == all);
}

/// Appends the serialised `items`, with commas between them.
fn write_serialized_items(out: &mut Vec<char>, items: &Vec<Value>)
    ensures
        final(out)@ == old(out)@ + serialized_items(values_model(items@)),
    decreases items,
{
    let ghost all = values_model(items@);
    proof {
        lemma_values_model(items@);
    }
    let mut i: usize = 0;
    assert(all.take(0) =~= Seq::<ValueModel>::empty());
    assert(out@ =~= old(out)@ + serialized_items(all.take(0)));
    while i < items.len()
        invariant
            i <= items.len(),
            all == values_model(items@),
            all.len() == items.len(),
            forall|k: int| 0 <= k < items.len() ==> all[k] == #[trigger] items@[k]@,
            out@ == old(out)@ + serialized_items(all.take(i as int)),
        decreases items.len() - i,
    {
        if i > 0 {
            out.push(',');
        }
        items[i].write_serialized(out);
        proof {
            assert(all.take(i + 1).drop_last() == all.take(i as int));
            assert(all.take(i + 1).last() == items@[i as int]@);
            if i == 0 {
                assert(out@ =~= old(out)@ + serialized_items(all.take(1)));
            } else {
                assert(out@ =~= old(out)@ + serialized_items(all.take(i + 1)));
            }
        }
        i += 1;
    }
    assert(all.take(items.len() as int) == all);
}

impl Value {
    /// Appends the text of the value as a reader sees it.
    pub fn write_rendered(&self, out: &mut Vec<char>)
        ensures
            final(out)@ == old(out)@ + rendered(self@),
        decreases self,
    {
        match self {
            Value::Int(n) => {
                let t = render_i32(*n);
                append(out, t.as_slice());
            },
            Value::Float(f) => {
                let t = f.render();
                append(out, t.as_slice());
            },
            Value::Str(s) => append_str(out, s.as_str()),
            Value::Bool(b) => append_str(out, if *b { "true" } else { "false" }),
            Value::List(items) => {
                out.push('[');
                write_rendered_items(out, items);
                out.push(']');
                assert(out@ =~= old(out)@ + rendered(self@));
            },
            Value::FunctionRef(_) => append_str(out, "<ast>"),
            Value::EnvironmentRef(_) => append_str(out, "<environment>"),
            Value::Undefined => append_str(out, "undefined"),
            Value::Null => append_str(out, "null"),
        }
    }

    /// Appends the text of the value as an outside program receives it.
    pub fn write_serialized(&self, out: &mut Vec<char>)
        ensures
            final(out)@ == old(out)@ + serialized(self@),
        decreases self,
    {
        match self {
            Value::Int(n) => {
                let t = render_i32(*n);
                append(out, t.as_slice());
            },
            Value::Float(f) => {
                let t = f.render();
                append(out, t.as_slice());
            },
            Value::Str(s) => {
                out.push('"');
                append_str(out, s.as_str());
                out.push('"');
                assert(out@ =~= old(out)@ + serialized(self@));
            },
            Value::Bool(b) => append_str(out, if *b { "true" } else { "false" }),
            Value::List(items) => {
                out.push('[');
                write_serialized_items(out, items);
                out.push(']');
                assert(out@ =~= old(out)@ + serialized(self@));
            },
            Value::FunctionRef(f) => {
                let mut json: Vec<char> = Vec::new();
                if write_function_json(&mut json, f) {
                    assert(json@ =~= function_json(f@));
                    append(out, json.as_slice());
                } else {
                    append_str(out, "null");
                }
            },
            Value::EnvironmentRef(_) => append_str(out, "null"),
            Value::Undefined => append_str(out, "undefined"),
            Value::Null => append_str(out, "null"),
        }
    }

    /// The text of the value as a reader sees it.
    pub fn print_value(&self) -> (r: String)
        ensures
            r@ == rendered(self@),
    {
        let mut out: Vec<char> = Vec::new();
        self.write_rendered(&mut out);
        assert(out@ =~= rendered(self@));
        text_of(out.as_slice())
    }

    /// The name of the kind of the value.
    pub fn print_type(&self) -> (r: String)
        ensures
            r@ == kind_name(self@),
    {
        let name = match self {
            Value::Int(_) => "int",
            Value::Float(_) => "float",
            Value::Str(_) => "string",
            Value::Bool(_) => "bool",
            Value::List(_) => "list",
            Value::FunctionRef(_) => "ast",
            Value::EnvironmentRef(_) => "environment",
            Value::Undefined => "undefined",
            Value::Null => "null",
        };
        let v = chars_of(name);
        text_of(v.as_slice())
    }

    /// The text of the value as an outside program receives it.
    pub fn serialize(&self) -> (r: String)
        ensures
            r@ == serialized(self@),
    {
        let mut out: Vec<char> = Vec::new();
        self.write_serialized(&mut out);
        assert(out@ =~= serialized(self@));
        text_of(out.as_slice())
    }
}

} // verus!
