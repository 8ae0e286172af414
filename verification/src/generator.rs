//! From the text of a program to its functions, constants and imports.
//!
//! A program is a row of lines. What stands after `//` in a line is a comment. At the
//! top level a line that ends with `;` declares a constant, one that ends with `{`
//! opens a function, whose body reaches to the line `}`, and one that ends with `!`
//! imports an outside program. In a body a line that ends with `;` is a `Set`, one
//! with `!` a `Mark`, one with `?` a `Do`, and every other line a `Return`.

use crate::environment::{bind, import};
use crate::error::{ErrorKind, Failure, FailureModel, Halt, HaltModel, Reply};
use crate::evaluator::eval;
use crate::parser_core::lexer::code_of;
use crate::semantics;
use crate::semantics::World;
use crate::text::{
    chars_of, find_doubled, find_from, find_last, last_position, position, split, split_on,
    text_of, texts, trim, trimmed, views,
};
use crate::value::{
    statements, Environment, Function, FunctionModel, ScopeModel, Statement, StatementModel,
    Value, ValueModel, Verb,
};
use vstd::prelude::*;
use vstd::slice::slice_subrange;

verus! {

/// The failure to read `text`.
pub open spec fn unread(text: Seq<char>) -> FailureModel {
    FailureModel { kind: ErrorKind::ParseError, index: None, text }
}

/// The second piece of `s` cut at each `c`: what stands between the first `c` and the
/// next, or the end.
pub open spec fn second_piece(s: Seq<char>, c: char) -> Seq<char> {
    let rest = s.skip(position(s, c) + 1);
    rest.take(position(rest, c))
}

/// The name, the type and the value of a declaration `name: type = value`, without
/// the semicolon at its end; none where the equals sign or the colon is missing.
pub open spec fn declaration(body: Seq<char>) -> Option<(Seq<char>, Seq<char>, Seq<char>)> {
    let eq = position(body, '=');
    let head = body.take(eq);
    let colon = position(head, ':');
    if eq >= body.len() || colon >= head.len() {
        None
    } else {
        Some((trim(head.take(colon)), trim(second_piece(head, ':')), trim(body.skip(eq + 1))))
    }
}

/// The statement that the line `line` of a body writes, in a function of the result
/// type `type_of`. The line is not empty.
pub open spec fn statement_of(line: Seq<char>, type_of: Seq<char>) -> Result<
    StatementModel,
    FailureModel,
> {
    let body = line.drop_last();
    if line.last() == '?' {
        let space = position(body, ' ');
        if space >= body.len() {
            Err(unread(line))
        } else {
            Ok(StatementModel { verb: Verb::Do, nouns: seq![body.take(space), body.skip(space + 1)] })
        }
    } else if line.last() == ';' {
        match declaration(body) {
            Some((name, kind, value)) => Ok(
                StatementModel { verb: Verb::Assign, nouns: seq![name, kind, value] },
            ),
            None => Err(unread(line)),
        }
    } else if line.last() == '!' {
        Ok(StatementModel { verb: Verb::Mark, nouns: seq![trim(body)] })
    } else {
        Ok(StatementModel { verb: Verb::Return, nouns: seq![trim(line), type_of] })
    }
}

/// The statements that the lines `lines` write, or the failure of the first line that
/// writes none; empty lines are passed over.
pub open spec fn statements_of(lines: Seq<Seq<char>>, type_of: Seq<char>) -> Result<
    Seq<StatementModel>,
    FailureModel,
>
    decreases lines.len(),
{
    if lines.len() == 0 {
        Ok(Seq::empty())
    } else {
        match statements_of(lines.drop_last(), type_of) {
            Err(e) => Err(e),
            Ok(before) => if lines.last().len() == 0 {
                Ok(before)
            } else {
                match statement_of(lines.last(), type_of) {
                    Ok(s) => Ok(before.push(s)),
                    Err(e) => Err(e),
                }
            },
        }
    }
}

/// Whether `c` parts the directories of a path.
pub open spec fn is_separator(c: char) -> bool {
    c == '/' || c == '\\'
}

/// The index of the last separator in `s`, or -1.
pub open spec fn last_separator(s: Seq<char>) -> int
    decreases s.len(),
{
    if s.len() == 0 {
        -1
    } else if is_separator(s.last()) {
        s.len() - 1
    } else {
        last_separator(s.drop_last())
    }
}

/// The name of the file at `path` without its extension: what stands after the last
/// separator, up to the last full stop that is not its first character. None where
/// nothing stands after the last separator.
pub open spec fn file_stem(path: Seq<char>) -> Option<Seq<char>> {
    let name = path.skip(last_separator(path) + 1);
    let dot = last_position(name, '.');
    if name.len() == 0 {
        None
    } else if dot <= 0 {
        Some(name)
    } else {
        Some(name.take(dot))
    }
}

/// The names of the parameters in `pieces`, each trimmed; blank pieces name none.
pub open spec fn names_of(pieces: Seq<Seq<char>>) -> Seq<Seq<char>>
    decreases pieces.len(),
{
    if pieces.len() == 0 {
        Seq::empty()
    } else if trim(pieces.last()).len() == 0 {
        names_of(pieces.drop_last())
    } else {
        names_of(pieces.drop_last()).push(trim(pieces.last()))
    }
}

/// `s` without its closing brackets.
pub open spec fn unclosed(s: Seq<char>) -> Seq<char>
    decreases s.len(),
{
    if s.len() == 0 {
        s
    } else if s.last() == ')' {
        unclosed(s.drop_last())
    } else {
        unclosed(s.drop_last()).push(s.last())
    }
}

/// The name, the result type and the parameters of a header
/// `name: type(param, param, ...)`, without the brace at its end; none where the
/// opening bracket or the colon is missing.
pub open spec fn header(body: Seq<char>) -> Option<(Seq<char>, Seq<char>, Seq<Seq<char>>)> {
    let open = position(body, '(');
    let traits = body.take(open);
    let colon = position(traits, ':');
    if open >= body.len() || colon >= traits.len() {
        None
    } else {
        Some(
            (
                trim(traits.take(colon)),
                trim(second_piece(traits, ':')),
                names_of(split(trim(unclosed(second_piece(body, '('))), ',')),
            ),
        )
    }
}

/// The index of the first line from `from` on whose code is `}`, or the number of lines.
pub open spec fn body_end(lines: Seq<Seq<char>>, from: int) -> int
    decreases lines.len() - from,
{
    if from < 0 || from >= lines.len() || code_of(lines[from]) == seq!['}'] {
        from
    } else {
        body_end(lines, from + 1)
    }
}

/// The code of each line.
pub open spec fn codes(lines: Seq<Seq<char>>) -> Seq<Seq<char>> {
    lines.map_values(|l: Seq<char>| code_of(l))
}

/// The value of a constant: the literal `value` of the type `kind`, evaluated
/// without a scope.
pub open spec fn constant(value: Seq<char>, kind: Seq<char>) -> Result<ValueModel, FailureModel> {
    match semantics::eval(World { replies: Seq::empty(), steps: 0 }, value, kind, None, 0, 0).result {
        Ok(v) => Ok(v),
        Err(HaltModel::Failed(e)) => Err(e),
        Err(HaltModel::Pending(_)) => Err(
            FailureModel { kind: ErrorKind::ExternalProcessError, index: None, text: value },
        ),
    }
}

/// What the line `at` of a program, which holds code, makes of the scope `scope`, and
/// the index of the line to go on with.
///
/// A declaration binds its name to its constant. A header binds its name to the
/// function whose body reaches to the next line `}`, and goes on after that line. An
/// import records the path under the name of its file without extension.
pub open spec fn load_one(lines: Seq<Seq<char>>, at: int, scope: ScopeModel) -> Result<
    (int, ScopeModel),
    FailureModel,
> {
    let code = code_of(lines[at]);
    let body = code.drop_last();
    if code.last() == ';' {
        match declaration(body) {
            None => Err(unread(code)),
            Some((name, kind, value)) => match constant(value, kind) {
                Err(e) => Err(e),
                Ok(v) => Ok((at + 1, bind(scope, name, v))),
            },
        }
    } else if code.last() == '{' {
        match header(body) {
            None => Err(unread(code)),
            Some((name, kind, params)) => {
                let end = body_end(lines, at + 1);
                match statements_of(codes(lines.subrange(at + 1, end)), kind) {
                    Err(e) => Err(e),
                    Ok(statements) => Ok(
                        (
                            if end < lines.len() {
                                end + 1
                            } else {
                                end
                            },
                            bind(
                                scope,
                                name,
                                ValueModel::FunctionRef(FunctionModel { lines: statements, params }),
                            ),
                        ),
                    ),
                }
            },
        }
    } else if code.last() == '!' {
        match file_stem(trim(body)) {
            None => Err(unread(code)),
            Some(alias) => Ok((at + 1, import(scope, alias, trim(body)))),
        }
    } else {
        Err(unread(code))
    }
}

/// The scope `scope` after the lines of a program from the line `at` on; blank lines
/// and comments are passed over.
pub open spec fn loaded(lines: Seq<Seq<char>>, at: int, scope: ScopeModel) -> Result<
    ScopeModel,
    FailureModel,
>
    decreases lines.len() - at,
{
    if at < 0 || at >= lines.len() {
        Ok(scope)
    } else if code_of(lines[at]).len() == 0 {
        loaded(lines, at + 1, scope)
    } else {
        match load_one(lines, at, scope) {
            Err(e) => Err(e),
            Ok((next, after)) => {
                proof {
                    lemma_body_end(lines, at + 1);
                }
                loaded(lines, next, after)
            },
        }
    }
}

/// The end of a body lies at or after its first line, and no line before it is `}`.
/// The scope `scope` as the lines of a program from the line `at` on leave it: after
/// the last line, or before the first line that cannot be read.
pub open spec fn loaded_scope(lines: Seq<Seq<char>>, at: int, scope: ScopeModel) -> ScopeModel
    decreases lines.len() - at,
{
    if at < 0 || at >= lines.len() {
        scope
    } else if code_of(lines[at]).len() == 0 {
        loaded_scope(lines, at + 1, scope)
    } else {
        match load_one(lines, at, scope) {
            Err(e) => scope,
            Ok((next, after)) => {
                proof {
                    lemma_body_end(lines, at + 1);
                }
                loaded_scope(lines, next, after)
            },
        }
    }
}

pub proof fn lemma_body_end(lines: Seq<Seq<char>>, from: int)
    requires
        0 <= from,
    ensures
        from <= body_end(lines, from),
        from <= lines.len() ==> body_end(lines, from) <= lines.len(),
        forall|k: int| from <= k < body_end(lines, from) ==> code_of(#[trigger] lines[k]) != seq!['}'],
        body_end(lines, from) < lines.len() ==> code_of(lines[body_end(lines, from)]) == seq!['}'],
    decreases lines.len() - from,
{
    if from >= lines.len() || code_of(lines[from]) == seq!['}'] {
    } else {
        lemma_body_end(lines, from + 1);
    }
}

/// The failure to read `text`.
fn unreadable(text: &[char]) -> (r: Failure)
    ensures
        r@ == unread(text@),
{
    Failure { kind: ErrorKind::ParseError, index: None, text: text_of(text) }
}

/// What stands in `s` between the first `c` and the next, or the end.
fn second<'a>(s: &'a [char], c: char) -> (r: &'a [char])
    requires
        position(s@, c) < s@.len(),
    ensures
        r@ == second_piece(s@, c),
{
    assert(s@.skip(0) == s@);
    let first = find_from(s, c, 0);
    let rest = slice_subrange(s, first + 1, s.len());
    assert(rest@.skip(0) == rest@);
    let next = find_from(rest, c, 0);
    slice_subrange(rest, 0, next)
}

/// The name, the type and the value of a declaration.
fn parse_declaration(body: &[char]) -> (r: Option<(&[char], &[char], &[char])>)
    ensures
        match (r, declaration(body@)) {
            (Some(p), Some(d)) => p.0@ == d.0 && p.1@ == d.1 && p.2@ == d.2,
            (None, None) => true,
            _ => false,
        },
{
    assert(body@.skip(0) == body@);
    let eq = find_from(body, '=', 0);
    let head = slice_subrange(body, 0, eq);
    assert(head@.skip(0) == head@);
    let colon = find_from(head, ':', 0);
    if eq >= body.len() || colon >= head.len() {
        None
    } else {
        Some(
            (
                trimmed(slice_subrange(head, 0, colon)),
                trimmed(second(head, ':')),
                trimmed(slice_subrange(body, eq + 1, body.len())),
            ),
        )
    }
}

/// The statement that the line `line` of a body writes.
pub fn parse_statement(line: &[char], type_of: &[char]) -> (r: Result<Statement, Failure>)
    requires
        line@.len() > 0,
    ensures
        match statement_of(line@, type_of@) {
            Ok(s) => r is Ok && r->Ok_0@ == s,
            Err(e) => r is Err && r->Err_0@ == e,
        },
{
    let n = line.len();
    let body = slice_subrange(line, 0, n - 1);
    assert(body@ == line@.drop_last());
    let suffix = line[n - 1];
    if suffix == '?' {
        assert(body@.skip(0) == body@);
        let space = find_from(body, ' ', 0);
        if space >= body.len() {
            return Err(unreadable(line));
        }
        let mut nouns: Vec<String> = Vec::new();
        nouns.push(text_of(slice_subrange(body, 0, space)));
        nouns.push(text_of(slice_subrange(body, space + 1, body.len())));
        assert(texts(nouns@) =~= seq![body@.take(space as int), body@.skip(space + 1)]);
        Ok(Statement { verb: Verb::Do, nouns })
    } else if suffix == ';' {
        match parse_declaration(body) {
            Some((name, kind, value)) => {
                let mut nouns: Vec<String> = Vec::new();
                nouns.push(text_of(name));
                nouns.push(text_of(kind));
                nouns.push(text_of(value));
                assert(texts(nouns@) =~= seq![name@, kind@, value@]);
                Ok(Statement { verb: Verb::Assign, nouns })
            },
            None => Err(unreadable(line)),
        }
    } else if suffix == '!' {
        let mut nouns: Vec<String> = Vec::new();
        nouns.push(text_of(trimmed(body)));
        assert(texts(nouns@) =~= seq![trim(body@)]);
        Ok(Statement { verb: Verb::Mark, nouns })
    } else {
        let mut nouns: Vec<String> = Vec::new();
        nouns.push(text_of(trimmed(line)));
        nouns.push(text_of(type_of));
        assert(texts(nouns@) =~= seq![trim(line@), type_of@]);
        Ok(Statement { verb: Verb::Return, nouns })
    }
}

/// The line `raw` without its comment and trimmed.
fn code<'a>(raw: &'a [char]) -> (r: &'a [char])
    ensures
        r@ == code_of(raw@),
{
    trimmed(slice_subrange(raw, 0, find_doubled(raw, '/')))
}

/// The texts of the lines as the statements are read from them: their code where
/// `strip` is set, the lines themselves otherwise.
pub open spec fn as_read(lines: Seq<Seq<char>>, strip: bool) -> Seq<Seq<char>> {
    if strip {
        codes(lines)
    } else {
        lines
    }
}

/// The statements that the lines from `from` up to `to` write.
fn parse_statements(lines: &Vec<&[char]>, from: usize, to: usize, strip: bool, type_of: &[char]) -> (r:
    Result<Vec<Statement>, Failure>)
    requires
        from <= to <= lines.len(),
    ensures
        match statements_of(as_read(views(lines@).subrange(from as int, to as int), strip), type_of@) {
            Ok(s) => r is Ok && statements(r->Ok_0@) == s,
            Err(e) => r is Err && r->Err_0@ == e,
        },
{
    let ghost all = as_read(views(lines@).subrange(from as int, to as int), strip);
    let mut out: Vec<Statement> = Vec::new();
    let mut i: usize = from;
    assert(all.take(0) =~= Seq::<Seq<char>>::empty());
    assert(statements(out@) =~= Seq::<StatementModel>::empty());
    while i < to
        invariant
            from <= i <= to <= lines.len(),
            all == as_read(views(lines@).subrange(from as int, to as int), strip),
            all.len() == to - from,
            statements_of(all.take(i - from), type_of@) == Ok::<Seq<StatementModel>, FailureModel>(
                statements(out@),
            ),
        decreases to - i,
    {
        let raw = lines[i];
        let line = if strip {
            code(raw)
        } else {
            raw
        };
        proof {
            assert(all.take(i - from + 1).drop_last() == all.take(i - from));
            assert(all.take(i - from + 1).last() == line@);
        }
        if line.len() > 0 {
            match parse_statement(line, type_of) {
                Ok(statement) => {
                    let ghost before = out@;
                    out.push(statement);
                    assert(statements(out@) =~= statements(before).push(statement@));
                },
                Err(e) => {
                    proof {
                        lemma_statements_fail(all, i - from + 1, type_of@);
                    }
                    return Err(e);
                },
            }
        }
        i += 1;
    }
    assert(all.take(to - from) == all);
    Ok(out)
}

/// A failure among the first lines is the failure of all of them.
pub proof fn lemma_statements_fail(lines: Seq<Seq<char>>, k: int, type_of: Seq<char>)
    requires
        0 <= k <= lines.len(),
        statements_of(lines.take(k), type_of) is Err,
    ensures
        statements_of(lines, type_of) == statements_of(lines.take(k), type_of),
    decreases lines.len() - k,
{
    if k == lines.len() {
        assert(lines.take(k) == lines);
    } else {
        assert(lines.take(k + 1).drop_last() == lines.take(k));
        lemma_statements_fail(lines, k + 1, type_of);
    }
}

/// The first index with these properties is that of the last separator.
pub proof fn lemma_last_separator(s: Seq<char>)
    ensures
        -1 <= last_separator(s) < s.len(),
        last_separator(s) >= 0 ==> is_separator(s[last_separator(s)]),
        forall|k: int| last_separator(s) < k < s.len() ==> !is_separator(s[k]),
    decreases s.len(),
{
    if s.len() > 0 && !is_separator(s.last()) {
        lemma_last_separator(s.drop_last());
        assert forall|k: int| last_separator(s) < k < s.len() implies !is_separator(s[k]) by {
            if k < s.len() - 1 {
                assert(s.drop_last()[k] == s[k]);
            }
        }
    }
}

/// The name of the file at `path` without its extension.
pub fn get_file_name(path: &str) -> (r: Option<String>)
    ensures
        match file_stem(path@) {
            Some(stem) => r is Some && r->0@ == stem,
            None => r is None,
        },
{
    let v = chars_of(path);
    match stem_of(v.as_slice()) {
        Some(stem) => Some(text_of(stem)),
        None => None,
    }
}

/// The name of the file at `path` without its extension.
fn stem_of(path: &[char]) -> (r: Option<&[char]>)
    ensures
        match file_stem(path@) {
            Some(stem) => r is Some && r->0@ == stem,
            None => r is None,
        },
{
    let mut j: usize = path.len();
    assert(path@.take(j as int) == path@);
    while j > 0 && !(path[j - 1] == '/' || path[j - 1] == '\\')
        invariant
            j <= path.len(),
            last_separator(path@) == last_separator(path@.take(j as int)),
        decreases j,
    {
        assert(path@.take(j as int).drop_last() == path@.take(j - 1));
        j -= 1;
    }
    proof {
        lemma_last_separator(path@.take(j as int));
    }
    let name = slice_subrange(path, j, path.len());
    if name.len() == 0 {
        return None;
    }
    let dot = find_last(name, '.');
    if dot <= 1 {
        Some(name)
    } else {
        Some(slice_subrange(name, 0, dot - 1))
    }
}

/// `s` without its closing brackets.
fn without_closing(s: &[char]) -> (r: Vec<char>)
    ensures
        r@ == unclosed(s@),
{
    let mut r: Vec<char> = Vec::new();
    let mut i: usize = 0;
    assert(s@.take(0) =~= Seq::<char>::empty());
    while i < s.len()
        invariant
            i <= s.len(),
            r@ == unclosed(s@.take(i as int)),
        decreases s.len() - i,
    {
        assert(s@.take(i + 1).drop_last() == s@.take(i as int));
        if s[i] != ')' {
            r.push(s[i]);
        }
        i += 1;
    }
    assert(s@.take(s.len() as int) == s@);
    r
}

/// The names of the parameters in the text between the brackets of a header.
fn parameter_names(text: &[char]) -> (r: Vec<String>)
    ensures
        texts(r@) == names_of(split(text@, ',')),
{
    let pieces = split_on(text, ',');
    let ghost all = views(pieces@);
    let mut names: Vec<String> = Vec::new();
    let mut i: usize = 0;
    assert(all.take(0) =~= Seq::<Seq<char>>::empty());
    assert(texts(names@) =~= Seq::<Seq<char>>::empty());
    while i < pieces.len()
        invariant
            i <= pieces.len(),
            all == views(pieces@),
            texts(names@) == names_of(all.take(i as int)),
        decreases pieces.len() - i,
    {
        let name = trimmed(pieces[i]);
        proof {
            assert(all.take(i + 1).drop_last() == all.take(i as int));
            assert(all.take(i + 1).last() == pieces@[i as int]@);
        }
        if name.len() > 0 {
            let ghost before = names@;
            let t = text_of(name);
            names.push(t);
            assert(texts(names@) =~= texts(before).push(t@));
        }
        i += 1;
    }
    assert(all.take(pieces.len() as int) == all);
    names
}

/// The name, the result type and the parameters of a header.
fn parse_header(body: &[char]) -> (r: Option<(String, Vec<char>, Vec<String>)>)
    ensures
        match (r, header(body@)) {
            (Some(p), Some(h)) => p.0@ == h.0 && p.1@ == h.1 && texts(p.2@) == h.2,
            (None, None) => true,
            _ => false,
        },
{
    assert(body@.skip(0) == body@);
    let open = find_from(body, '(', 0);
    let traits = slice_subrange(body, 0, open);
    assert(traits@.skip(0) == traits@);
    let colon = find_from(traits, ':', 0);
    if open >= body.len() || colon >= traits.len() {
        return None;
    }
    let inside = without_closing(second(body, '('));
    let params = parameter_names(trimmed(inside.as_slice()));
    let mut kind: Vec<char> = Vec::new();
    crate::text::append(&mut kind, trimmed(second(traits, ':')));
    assert(kind@ =~= trim(second_piece(traits@, ':')));
    Some((text_of(trimmed(slice_subrange(traits, 0, colon))), kind, params))
}

/// The value of a constant.
fn constant_value(value: &[char], kind: &[char]) -> (r: Result<Value, Failure>)
    ensures
        match constant(value@, kind@) {
            Ok(v) => r is Ok && r->Ok_0@ == v,
            Err(e) => r is Err && r->Err_0@ == e,
        },
{
    let replies: Vec<Reply> = Vec::new();
    assert(crate::error::replies_model(replies@) =~= Seq::empty());
    match eval(&replies, 0, value, kind, None, 0, 0).0 {
        Ok(v) => Ok(v),
        Err(Halt::Failed(e)) => Err(e),
        Err(Halt::Pending(_)) => Err(
            Failure { kind: ErrorKind::ExternalProcessError, index: None, text: text_of(value) },
        ),
    }
}

/// The index of the first line from `from` on whose code is `}`, or the number of lines.
fn find_body_end(lines: &Vec<&[char]>, from: usize) -> (r: usize)
    requires
        from <= lines.len(),
    ensures
        r == body_end(views(lines@), from as int),
        from <= r <= lines.len(),
{
    let ghost all = views(lines@);
    let mut j: usize = from;
    while j < lines.len()
        invariant
            from <= j <= lines.len(),
            all == views(lines@),
            body_end(all, from as int) == body_end(all, j as int),
        decreases lines.len() - j,
    {
        let c = code(lines[j]);
        assert(all[j as int] == lines@[j as int]@);
        if c.len() == 1 && c[0] == '}' {
            assert(c@ =~= seq!['}']);
            return j;
        }
        assert(c@ != seq!['}']) by {
            if c@ == seq!['}'] {
                assert(c@.len() == 1 && c@[0] == '}');
            }
        }
        j += 1;
    }
    j
}

/// The reader of the text of a program into an environment.
#[derive(Debug)]
pub struct ASTGenerator {
    pub file_contents: String,
    pub environment: Environment,
}

impl ASTGenerator {
    /// The reader of the text `file_contents` into `environment`.
    pub fn new(file_contents: String, environment: Environment) -> (r: Self)
        ensures
            r.file_contents == file_contents,
            r.environment == environment,
    {
        ASTGenerator { file_contents, environment }
    }

    /// The function named `function_name` with the parameters `params` whose body is
    /// the text `function` and whose result has the type `type_of`, as a value.
    #[allow(non_snake_case)]
    pub fn fn_to_AST(function: String, type_of: String, params: Vec<String>, function_name: String) -> (r:
        Result<(String, Value), Failure>)
        ensures
            match statements_of(split(function@, '\n'), type_of@) {
                Ok(lines) => r matches Ok(named) && named.0 == function_name && named.1@
                    == ValueModel::FunctionRef(FunctionModel { lines, params: texts(params@) }),
                Err(e) => r is Err && r->Err_0@ == e,
            },
    {
        let text = chars_of(function.as_str());
        let kind = chars_of(type_of.as_str());
        let lines = split_on(text.as_slice(), '\n');
        assert(views(lines@).subrange(0, lines.len() as int) == views(lines@));
        match parse_statements(&lines, 0, lines.len(), false, kind.as_slice()) {
            Ok(statements) => Ok((function_name, Value::FunctionRef(Function { lines: statements, params }))),
            Err(e) => Err(e),
        }
    }

    /// Reads the program into the environment: binds each constant and each function
    /// and records each import. A line that cannot be read is a `ParseError` that
    /// holds it, and a constant that is no literal of its type is a `TypeError`; the
    /// environment then holds what the lines before it have made of it.
    #[allow(non_snake_case)]
    pub fn load_function_AST(&mut self) -> (r: Result<(), Failure>)
        ensures
            final(self).file_contents == old(self).file_contents,
            match loaded(split(old(self).file_contents@, '\n'), 0, old(self).environment@) {
                Ok(scope) => r is Ok && final(self).environment@ == scope,
                Err(e) => r is Err && r->Err_0@ == e,
            },
            final(self).environment@ == loaded_scope(
                split(old(self).file_contents@, '\n'),
                0,
                old(self).environment@,
            ),
    {
        let text = chars_of(self.file_contents.as_str());
        let lines = split_on(text.as_slice(), '\n');
        let ghost all = views(lines@);
        let ghost goal = loaded(all, 0, self.environment@);
        let ghost left = loaded_scope(all, 0, self.environment@);
        let mut at: usize = 0;
        while at < lines.len()
            invariant
                at <= lines.len(),
                all == views(lines@),
                self.file_contents == old(self).file_contents,
                goal == loaded(split(old(self).file_contents@, '\n'), 0, old(self).environment@),
                goal == loaded(all, at as int, self.environment@),
                left == loaded_scope(split(old(self).file_contents@, '\n'), 0, old(self).environment@),
                left == loaded_scope(all, at as int, self.environment@),
            decreases lines.len() - at,
        {
            let line = code(lines[at]);
            assert(all[at as int] == lines@[at as int]@);
            if line.len() == 0 {
                at += 1;
            } else {
                match load_line(&mut self.environment, &lines, at) {
                    Err(e) => {
                        return Err(e);
                    },
                    Ok(next) => {
                        at = next;
                    },
                }
            }
        }
        Ok(())
    }
}

/// Reads the line `at`, which holds code, into `env`, and gives the index of the line
/// to go on with.
fn load_line(env: &mut Environment, lines: &Vec<&[char]>, at: usize) -> (r: Result<usize, Failure>)
    requires
        at < lines.len(),
        code_of(lines@[at as int]@).len() > 0,
    ensures
        match load_one(views(lines@), at as int, old(env)@) {
            Ok((next, scope)) => r == Ok::<usize, Failure>(next as usize) && at < next <= lines.len()
                && final(env)@ == scope,
            Err(e) => r is Err && r->Err_0@ == e && *final(env) == *old(env),
        },
{
    let ghost all = views(lines@);
    let line = code(lines[at]);
    assert(all[at as int] == lines@[at as int]@);
    let body = slice_subrange(line, 0, line.len() - 1);
    assert(body@ == line@.drop_last());
    let suffix = line[line.len() - 1];
    if suffix == ';' {
        match parse_declaration(body) {
            None => Err(unreadable(line)),
            Some((name, kind, value)) => match constant_value(value, kind) {
                Err(e) => Err(e),
                Ok(v) => {
                    env.bind(text_of(name), v);
                    Ok(at + 1)
                },
            },
        }
    } else if suffix == '{' {
        match parse_header(body) {
            None => Err(unreadable(line)),
            Some((name, kind, params)) => {
                let end = find_body_end(lines, at + 1);
                match parse_statements(lines, at + 1, end, true, kind.as_slice()) {
                    Err(e) => Err(e),
                    Ok(statements) => {
                        env.bind(name, Value::FunctionRef(Function { lines: statements, params }));
                        if end < lines.len() {
                            Ok(end + 1)
                        } else {
                            Ok(end)
                        }
                    },
                }
            },
        }
    } else if suffix == '!' {
        let path = trimmed(body);
        match stem_of(path) {
            None => Err(unreadable(line)),
            Some(alias) => {
                env.import(text_of(alias), text_of(path));
                Ok(at + 1)
            },
        }
    } else {
        Err(unreadable(line))
    }
}

} // verus!
