//! What a program means: the value of an expression, the truth of a condition and the
//! result of a function, as functions of the program, the scope and the replies that
//! outside programs have given so far.
//!
//! Nothing here runs. The evaluator's contracts say that it computes these functions.

use crate::compare::{equals, order};
use crate::environment::{bind, fresh_scope, lookup, resolve_import};
use crate::error::{failed, located, ErrorKind, HaltModel, ReplyModel, RequestModel};
use crate::float::float_literal;
use crate::number::int_literal;
use crate::order::Order;
use crate::render::serialized;
use crate::text::{
    doubled, holds, last_position, lemma_trim_len, lowered, position, starts_with, trim,
};
use crate::value::{FunctionModel, ScopeModel, StatementModel, ValueModel, Verb};
use vstd::prelude::*;

verus! {

/// What stays the same throughout an evaluation: the replies of the outside programs,
/// in the order of their calls, and the number of statements that one invocation of a
/// function may execute.
pub struct World {
    pub replies: Seq<ReplyModel>,
    pub steps: nat,
}

/// What an evaluation gives: a result, or why there is none, and the number of replies
/// used up to then.
pub struct Step<T> {
    pub result: Result<T, HaltModel>,
    pub next: nat,
}

/// The step that gives `value`.
pub open spec fn done<T>(value: T, next: nat) -> Step<T> {
    Step { result: Ok(value), next }
}

/// The step that stops with `halt`.
pub open spec fn stop<T>(halt: HaltModel, next: nat) -> Step<T> {
    Step { result: Err(halt), next }
}

// ---------------------------------------------------------------------------------
// Operands

/// Whether `item` has the form `value:type`.
pub open spec fn is_pair(item: Seq<char>) -> bool {
    last_position(item, ':') >= 0
}

/// The value of an item `value:type`: what stands before its last colon, trimmed.
pub open spec fn pair_value(item: Seq<char>) -> Seq<char> {
    trim(item.take(last_position(item, ':')))
}

/// The type of an item `value:type`: what stands after its last colon, trimmed.
pub open spec fn pair_kind(item: Seq<char>) -> Seq<char> {
    trim(item.skip(last_position(item, ':') + 1))
}

/// The depth of brackets after the character `c` at depth `depth`.
pub open spec fn depth_after(depth: nat, c: char) -> nat {
    if c == '(' || c == '[' {
        depth + 1
    } else if (c == ')' || c == ']') && depth > 0 {
        (depth - 1) as nat
    } else {
        depth
    }
}

/// The index of the first comma of `s` that stands inside no brackets, or the length
/// of `s`; `depth` brackets are open at the start.
pub open spec fn top_comma(s: Seq<char>, depth: nat) -> int
    decreases s.len(),
{
    if s.len() == 0 || (s[0] == ',' && depth == 0) {
        0
    } else {
        1 + top_comma(s.drop_first(), depth_after(depth, s[0]))
    }
}

// ---------------------------------------------------------------------------------
// Calls

/// Whether the call `text` is one of an outside program.
pub open spec fn is_foreign(text: Seq<char>) -> bool {
    text.len() > 0 && text[0] == '#'
}

/// The target of the call `text`: what stands before its first opening bracket,
/// without the mark of a foreign call and trimmed.
pub open spec fn call_target(text: Seq<char>) -> Seq<char> {
    let head = text.take(position(text, '('));
    if is_foreign(text) {
        trim(head.skip(1))
    } else {
        trim(head)
    }
}

/// The name in the target of a call: the whole target, or, where it holds `::`, what
/// stands between the first `::` and the next.
pub open spec fn call_name(target: Seq<char>) -> Seq<char> {
    let at = doubled(target, ':');
    if at < target.len() {
        let rest = target.skip(at + 2);
        rest.take(doubled(rest, ':'))
    } else {
        target
    }
}

/// The arguments of the call `text`: what stands between its first opening bracket
/// and its last character.
pub open spec fn call_arguments(text: Seq<char>) -> Seq<char> {
    let open = position(text, '(');
    if 0 <= open && open + 1 <= text.len() - 1 {
        text.subrange(open + 1, text.len() - 1)
    } else {
        Seq::empty()
    }
}

/// The map that binds each parameter to its argument; of two parameters of one name
/// the later one counts.
pub open spec fn zipped(params: Seq<Seq<char>>, args: Seq<ValueModel>) -> Map<
    Seq<char>,
    ValueModel,
>
    decreases params.len(),
{
    if params.len() == 0 || args.len() == 0 {
        Map::empty()
    } else {
        zipped(params.drop_last(), args.drop_last()).insert(params.last(), args.last())
    }
}

/// The scope in which a function runs: `vars` bound, the caller's scope around it, and
/// nothing imported.
pub open spec fn frame(parent: ScopeModel, vars: Map<Seq<char>, ValueModel>) -> ScopeModel {
    ScopeModel { vars, parent: Some(Box::new(parent)), imports: Map::empty() }
}

/// The serialised arguments of a call.
pub open spec fn serialized_all(args: Seq<ValueModel>) -> Seq<Seq<char>> {
    args.map_values(|v: ValueModel| serialized(v))
}

// ---------------------------------------------------------------------------------
// Literals of the primitive types and replies

/// `true` or `false` in any case, as a truth value.
pub open spec fn bool_word(s: Seq<char>) -> Option<bool> {
    if lowered(s) == "true"@ {
        Some(true)
    } else if lowered(s) == "false"@ {
        Some(false)
    } else {
        None
    }
}

/// The value that `text` writes as a literal of the primitive type `kind`.
pub open spec fn parsed(text: Seq<char>, kind: Seq<char>) -> Option<ValueModel> {
    if kind == "int"@ {
        match int_literal(text) {
            Some(n) => Some(ValueModel::Int(n)),
            None => None,
        }
    } else if kind == "float"@ {
        match float_literal(text) {
            Some(f) => Some(ValueModel::Float(f)),
            None => None,
        }
    } else if kind == "str"@ {
        Some(ValueModel::Str(text))
    } else if kind == "bool"@ {
        match bool_word(text) {
            Some(b) => Some(ValueModel::Bool(b)),
            None => None,
        }
    } else {
        None
    }
}

/// What the reply of an outside program gives: where the program succeeded and its
/// output, trimmed, is one line `value:type` that writes a literal of a primitive
/// type, that value; a failure otherwise, with the program's error output where it
/// did not succeed and with its output where that is not such a line.
pub open spec fn interpret(reply: ReplyModel) -> Result<ValueModel, HaltModel> {
    let line = trim(reply.stdout);
    if !reply.success {
        Err(failed(ErrorKind::ExternalProcessError, reply.stderr))
    } else if holds(line, '\n') || !is_pair(line) {
        Err(failed(ErrorKind::ExternalProcessError, reply.stdout))
    } else {
        match parsed(pair_value(line), pair_kind(line)) {
            Some(v) => Ok(v),
            None => Err(failed(ErrorKind::ExternalProcessError, reply.stdout)),
        }
    }
}

// ---------------------------------------------------------------------------------
// Conditions

/// A comparison between two operands of a condition.
#[derive(Clone, Copy, Debug, PartialEq, Eq, Structural)]
pub enum Comparison {
    Equal,
    AtMost,
    AtLeast,
    Below,
    Above,
    /// A token that holds `=`, `<` or `>` and is none of the five comparisons.
    Other,
}

/// A way to combine the results of two comparisons.
#[derive(Clone, Copy, Debug, PartialEq, Eq, Structural)]
pub enum Combinator {
    And,
    Or,
    Xor,
}

/// How far the evaluation of a condition has come.
pub struct Condition {
    /// The comparison that waits for its right operand.
    pub operator: Option<Comparison>,
    /// The left operand that waits for its comparison.
    pub left: Option<ValueModel>,
    /// The combinator that waits for the next comparison.
    pub combinator: Option<Combinator>,
    /// Whether the next comparison is negated.
    pub negate: bool,
    /// The result of the last comparison.
    pub current: bool,
    /// The result of the condition so far.
    pub outcome: bool,
}

/// The state before the first token.
pub open spec fn initial_condition() -> Condition {
    Condition {
        operator: None,
        left: None,
        combinator: None,
        negate: false,
        current: false,
        outcome: false,
    }
}

/// Whether `token` is a comparison operator: it holds `=`, `<` or `>`.
pub open spec fn is_operator(token: Seq<char>) -> bool {
    holds(token, '=') || holds(token, '<') || holds(token, '>')
}

/// The comparison that an operator token writes.
pub open spec fn comparison_of(token: Seq<char>) -> Comparison {
    if token == "=="@ {
        Comparison::Equal
    } else if token == "<="@ {
        Comparison::AtMost
    } else if token == ">="@ {
        Comparison::AtLeast
    } else if token == "<"@ {
        Comparison::Below
    } else if token == ">"@ {
        Comparison::Above
    } else {
        Comparison::Other
    }
}

/// The combinator that `token` writes, if it writes one.
pub open spec fn combinator_of(token: Seq<char>) -> Option<Combinator> {
    if token == "and"@ {
        Some(Combinator::And)
    } else if token == "or"@ {
        Some(Combinator::Or)
    } else if token == "xor"@ {
        Some(Combinator::Xor)
    } else {
        None
    }
}

/// Whether the comparison `op` holds between `left` and `right`.
pub open spec fn compare(op: Comparison, left: ValueModel, right: ValueModel) -> bool {
    match op {
        Comparison::Equal => equals(left, right),
        Comparison::AtMost => order(left, right) is Some && order(left, right) != Some(
            Order::Greater,
        ),
        Comparison::AtLeast => order(left, right) is Some && order(left, right) != Some(
            Order::Less,
        ),
        Comparison::Below => order(left, right) == Some(Order::Less),
        Comparison::Above => order(left, right) == Some(Order::Greater),
        Comparison::Other => false,
    }
}

/// The two truth values combined.
pub open spec fn combine(c: Combinator, a: bool, b: bool) -> bool {
    match c {
        Combinator::And => a && b,
        Combinator::Or => a || b,
        Combinator::Xor => a != b,
    }
}

/// The state after a comparison is complete: a pending negation is applied to its
/// result and cleared, and the result goes into the outcome through the pending
/// combinator, which is cleared too.
pub open spec fn settle(state: Condition) -> Condition {
    let current = if state.negate {
        !state.current
    } else {
        state.current
    };
    Condition {
        operator: state.operator,
        left: state.left,
        combinator: None,
        negate: false,
        current,
        outcome: match state.combinator {
            Some(c) => combine(c, state.outcome, current),
            None => current,
        },
    }
}

/// The state after the right operand `right` has met the pending comparison `op`.
pub open spec fn compared(state: Condition, op: Comparison, right: ValueModel) -> Condition {
    settle(
        Condition {
            operator: None,
            left: None,
            combinator: state.combinator,
            negate: state.negate,
            current: compare(op, state.left->0, right),
            outcome: state.outcome,
        },
    )
}

// ---------------------------------------------------------------------------------
// Jumps

/// The number of statements other than `Mark` that stand in `lines` before the first
/// `Mark` of the name `target`, if there is such a `Mark`.
pub open spec fn scan(lines: Seq<StatementModel>, target: Seq<char>) -> Option<nat>
    decreases lines.len(),
{
    if lines.len() == 0 {
        None
    } else if lines[0].verb == Verb::Mark {
        if lines[0].nouns.len() > 0 && lines[0].nouns[0] == target {
            Some(0)
        } else {
            scan(lines.drop_first(), target)
        }
    } else {
        match scan(lines.drop_first(), target) {
            Some(n) => Some(n + 1),
            None => None,
        }
    }
}

/// `index`, or the number of statements where it lies beyond them: every index from
/// there on ends the invocation.
pub open spec fn within(index: int, len: nat) -> nat {
    if index < 0 || index > len {
        len
    } else {
        index as nat
    }
}

/// Where a jump to `target` from the statement at `index` leads.
///
/// `~name` leads to the index that `name` is bound to in the scope itself, and fails
/// with `RuntimeError` where it is bound to no integer there. A target that begins
/// with `*` is sought from the first statement on, any other from the statement at
/// `index` on; the number that `scan` gives is added to `index`, and the jump fails
/// with `UndefinedReference` where `scan` finds no such marker.
pub open spec fn jump(
    lines: Seq<StatementModel>,
    index: nat,
    scope: ScopeModel,
    target: Seq<char>,
) -> Result<nat, ErrorKind> {
    if target.len() > 0 && target[0] == '~' {
        if scope.vars.contains_key(target.skip(1)) {
            match scope.vars[target.skip(1)] {
                ValueModel::Int(n) => Ok(within(n, lines.len())),
                _ => Err(ErrorKind::RuntimeError),
            }
        } else {
            Err(ErrorKind::RuntimeError)
        }
    } else {
        let found = if target.len() > 0 && target[0] == '*' {
            scan(lines, target)
        } else {
            scan(lines.skip(index as int), target)
        };
        match found {
            Some(n) => Ok(within((index + n) as int, lines.len())),
            None => Err(ErrorKind::UndefinedReference),
        }
    }
}

// ---------------------------------------------------------------------------------
// Expressions, conditions and functions

/// The value of the expression `text` of the declared type `kind`.
///
/// With a scope, a text that ends with a closing bracket is a call, and a text that
/// the scope binds stands for what it is bound to. Every other text is a literal of
/// its declared type.
pub open spec fn eval(
    w: World,
    text: Seq<char>,
    kind: Seq<char>,
    scope: Option<ScopeModel>,
    next: nat,
    depth: nat,
) -> Step<ValueModel>
    decreases depth, 0int, text.len(), 4int,
{
    if scope is Some && text.len() > 0 && text.last() == ')' {
        call(w, text, scope->0, next, depth)
    } else if scope is Some && !(lookup(scope->0, text) is Undefined) {
        done(lookup(scope->0, text), next)
    } else {
        literal(w, text, kind, scope, next, depth)
    }
}

/// The value of the call `text`.
///
/// A foreign call resolves its name in the scope's own imports, evaluates its
/// arguments and takes the next reply; where there is none left, it is pending with
/// the request that it would make. Any other call looks its name up, evaluates its
/// arguments and runs the function in a new scope inside the caller's.
pub open spec fn call(w: World, text: Seq<char>, scope: ScopeModel, next: nat, depth: nat) -> Step<
    ValueModel,
>
    decreases depth, 0int, text.len(), 3int,
{
    let name = call_name(call_target(text));
    if position(text, '(') >= text.len() {
        stop(failed(ErrorKind::ParseError, text), next)
    } else if is_foreign(text) {
        match resolve_import(scope, name) {
            None => stop(failed(ErrorKind::UndefinedReference, name), next),
            Some(path) => {
                proof {
                    crate::text::lemma_position(text, '(');
                }
                let a = arguments(w, call_arguments(text), Some(scope), next, depth);
                match a.result {
                    Err(h) => stop(h, a.next),
                    Ok(args) => if a.next >= w.replies.len() {
                        stop(
                            HaltModel::Pending(
                                RequestModel { path, args: serialized_all(args) },
                            ),
                            a.next,
                        )
                    } else {
                        Step { result: interpret(w.replies[a.next as int]), next: a.next + 1 }
                    },
                }
            },
        }
    } else {
        match lookup(scope, name) {
            ValueModel::FunctionRef(f) => if depth == 0 {
                stop(failed(ErrorKind::ResourceExhausted, text), next)
            } else {
                proof {
                    crate::text::lemma_position(text, '(');
                }
                let a = arguments(w, call_arguments(text), Some(scope), next, depth);
                match a.result {
                    Err(h) => stop(h, a.next),
                    Ok(args) => if args.len() != f.params.len() {
                        stop(failed(ErrorKind::TypeError, text), a.next)
                    } else {
                        run_from(
                            w,
                            f,
                            0,
                            frame(scope, zipped(f.params, args)),
                            a.next,
                            (depth - 1) as nat,
                            w.steps,
                        )
                    },
                }
            },
            ValueModel::Undefined => stop(failed(ErrorKind::UndefinedReference, name), next),
            _ => stop(failed(ErrorKind::NotCallableError, name), next),
        }
    }
}

/// The value of the literal `text` of the declared type `kind`.
pub open spec fn literal(
    w: World,
    text: Seq<char>,
    kind: Seq<char>,
    scope: Option<ScopeModel>,
    next: nat,
    depth: nat,
) -> Step<ValueModel>
    decreases depth, 0int, text.len(), 3int,
{
    if kind == "int"@ {
        match int_literal(text) {
            Some(n) => done(ValueModel::Int(n), next),
            None => stop(failed(ErrorKind::TypeError, text), next),
        }
    } else if kind == "float"@ {
        match float_literal(text) {
            Some(f) => done(ValueModel::Float(f), next),
            None => stop(failed(ErrorKind::TypeError, text), next),
        }
    } else if kind == "bool"@ {
        if starts_with(text, "if "@) {
            let c = check(w, text, scope, next, depth);
            match c.result {
                Ok(b) => done(ValueModel::Bool(b), c.next),
                Err(h) => stop(h, c.next),
            }
        } else if text == "true"@ {
            done(ValueModel::Bool(true), next)
        } else if text == "false"@ {
            done(ValueModel::Bool(false), next)
        } else {
            done(ValueModel::Undefined, next)
        }
    } else if kind == "str"@ {
        done(ValueModel::Str(trim(text)), next)
    } else if kind == "list"@ {
        let a = arguments(w, text, scope, next, depth);
        match a.result {
            Ok(items) => done(ValueModel::List(items), a.next),
            Err(h) => stop(h, a.next),
        }
    } else if kind == "undefined"@ {
        done(ValueModel::Undefined, next)
    } else if kind == "none"@ {
        done(ValueModel::Null, next)
    } else if kind == "env"@ {
        done(ValueModel::EnvironmentRef(fresh_scope(None)), next)
    } else {
        done(ValueModel::Undefined, next)
    }
}

/// The values of the items of `text`, each of the form `value:type`, with commas
/// outside brackets between them; none where `text` is blank.
pub open spec fn arguments(
    w: World,
    text: Seq<char>,
    scope: Option<ScopeModel>,
    next: nat,
    depth: nat,
) -> Step<Seq<ValueModel>>
    decreases depth, 0int, text.len(), 2int,
{
    if trim(text).len() == 0 {
        done(Seq::empty(), next)
    } else {
        items(w, text, Seq::empty(), scope, next, depth)
    }
}

/// `acc` and, after it, the values of the items of `rest`.
pub open spec fn items(
    w: World,
    rest: Seq<char>,
    acc: Seq<ValueModel>,
    scope: Option<ScopeModel>,
    next: nat,
    depth: nat,
) -> Step<Seq<ValueModel>>
    decreases depth, 0int, rest.len(), 1int,
{
    let cut = top_comma(rest, 0);
    let item = rest.take(cut);
    if !is_pair(item) {
        stop(failed(ErrorKind::ParseError, item), next)
    } else {
        proof {
            lemma_top_comma(rest, 0);
            lemma_operand_shorter(rest, cut);
        }
        let v = eval(w, pair_value(item), pair_kind(item), scope, next, depth);
        match v.result {
            Err(h) => stop(h, v.next),
            Ok(value) => if 0 <= cut < rest.len() {
                items(w, rest.skip(cut + 1), acc.push(value), scope, v.next, depth)
            } else {
                done(acc.push(value), v.next)
            },
        }
    }
}

/// Whether the condition `text` holds: `text` without its first three characters is a
/// row of tokens with single spaces between them, read from left to right.
pub open spec fn check(
    w: World,
    text: Seq<char>,
    scope: Option<ScopeModel>,
    next: nat,
    depth: nat,
) -> Step<bool>
    decreases depth, 0int, text.len(), 2int,
{
    if text.len() <= 3 {
        stop(failed(ErrorKind::ParseError, text), next)
    } else {
        tokens(w, text.skip(3), initial_condition(), scope, next, depth)
    }
}

/// The state of a condition after the first token of `rest`.
///
/// A token that holds `=`, `<` or `>` becomes the pending comparison; `and`, `or` or
/// `xor` becomes the pending combinator; `not` negates the next comparison. Any other
/// token is an operand `value:type`: the left one where no comparison is pending, the
/// right one otherwise, which completes the comparison. After a pending comparison
/// that is none of the five, an operand is not read: the last result is settled again.
pub open spec fn token_step(
    w: World,
    rest: Seq<char>,
    state: Condition,
    scope: Option<ScopeModel>,
    next: nat,
    depth: nat,
) -> Step<Condition>
    decreases depth, 0int, rest.len(), 0int,
{
    let token = rest.take(position(rest, ' '));
    if is_operator(token) {
        done(
            Condition {
                operator: Some(comparison_of(token)),
                left: state.left,
                combinator: state.combinator,
                negate: state.negate,
                current: state.current,
                outcome: state.outcome,
            },
            next,
        )
    } else if combinator_of(token) is Some {
        done(
            Condition {
                operator: state.operator,
                left: state.left,
                combinator: combinator_of(token),
                negate: state.negate,
                current: state.current,
                outcome: state.outcome,
            },
            next,
        )
    } else if token == "not"@ {
        done(
            Condition {
                operator: state.operator,
                left: state.left,
                combinator: state.combinator,
                negate: true,
                current: state.current,
                outcome: state.outcome,
            },
            next,
        )
    } else if state.operator == Some(Comparison::Other) {
        done(settle(state), next)
    } else if !is_pair(token) || (state.operator is Some && state.left is None) {
        stop(failed(ErrorKind::ParseError, token), next)
    } else {
        proof {
            lemma_position_bounds(rest);
            lemma_operand_shorter(rest, position(rest, ' '));
        }
        let v = eval(w, pair_value(token), pair_kind(token), scope, next, depth);
        match v.result {
            Err(h) => stop(h, v.next),
            Ok(value) => match state.operator {
                None => done(
                    Condition {
                        operator: state.operator,
                        left: Some(value),
                        combinator: state.combinator,
                        negate: state.negate,
                        current: state.current,
                        outcome: state.outcome,
                    },
                    v.next,
                ),
                Some(op) => done(compared(state, op, value), v.next),
            },
        }
    }
}

/// The outcome of a condition in the state `state` whose tokens left to read are
/// `rest`: the tokens are read one by one, and the outcome is that of the state after
/// the last.
pub open spec fn tokens(
    w: World,
    rest: Seq<char>,
    state: Condition,
    scope: Option<ScopeModel>,
    next: nat,
    depth: nat,
) -> Step<bool>
    decreases depth, 0int, rest.len(), 1int,
{
    let cut = position(rest, ' ');
    let after = token_step(w, rest, state, scope, next, depth);
    match after.result {
        Err(h) => stop(h, after.next),
        Ok(state) => if 0 <= cut < rest.len() {
            tokens(w, rest.skip(cut + 1), state, scope, after.next, depth)
        } else {
            done(state.outcome, after.next)
        },
    }
}

/// What one statement leaves behind: the index of the statement to go on with and
/// the scope as it is then, or the value that the invocation ends with.
pub enum Progress {
    Next { index: nat, scope: ScopeModel },
    Finished(ValueModel),
}

/// What the statement of `f` at `index` does in the scope `scope`.
///
/// `Set` binds its first noun to the value of its third at the type of its second;
/// `Return` ends the invocation with the value of its first noun at the type of
/// its second; `Mark` binds its noun to its own index; `Do` jumps to its first noun
/// where its second, as an expression of type `bool` or else as a condition, is true,
/// and goes on with the next statement otherwise. Beyond the last statement the
/// invocation ends with `Undefined`. A failure carries the index of the statement.
#[verifier::opaque]
pub open spec fn advance(
    w: World,
    f: FunctionModel,
    index: nat,
    scope: ScopeModel,
    next: nat,
    depth: nat,
) -> Step<Progress>
    decreases depth, 1int, 0int, 0int,
{
    if index >= f.lines.len() {
        done(Progress::Finished(ValueModel::Undefined), next)
    } else if index > usize::MAX {
        stop(failed(ErrorKind::ResourceExhausted, Seq::empty()), next)
    } else {
        let line = f.lines[index as int];
        let at = index as usize;
        match line.verb {
            Verb::Assign => if line.nouns.len() < 3 {
                stop(located(failed(ErrorKind::ParseError, Seq::empty()), at), next)
            } else {
                let v = eval(w, line.nouns[2], line.nouns[1], Some(scope), next, depth);
                match v.result {
                    Err(h) => stop(located(h, at), v.next),
                    Ok(value) => done(
                        Progress::Next {
                            index: index + 1,
                            scope: bind(scope, line.nouns[0], value),
                        },
                        v.next,
                    ),
                }
            },
            Verb::Return => if line.nouns.len() < 2 {
                stop(located(failed(ErrorKind::ParseError, Seq::empty()), at), next)
            } else {
                let v = eval(w, line.nouns[0], line.nouns[1], Some(scope), next, depth);
                match v.result {
                    Err(h) => stop(located(h, at), v.next),
                    Ok(value) => done(Progress::Finished(value), v.next),
                }
            },
            Verb::Mark => if line.nouns.len() < 1 {
                stop(located(failed(ErrorKind::ParseError, Seq::empty()), at), next)
            } else if index > i32::MAX {
                stop(located(failed(ErrorKind::ResourceExhausted, line.nouns[0]), at), next)
            } else {
                done(
                    Progress::Next {
                        index: index + 1,
                        scope: bind(scope, line.nouns[0], ValueModel::Int(index as int)),
                    },
                    next,
                )
            },
            Verb::Do => if line.nouns.len() < 2 {
                stop(located(failed(ErrorKind::ParseError, Seq::empty()), at), next)
            } else {
                let t = taken(w, line.nouns[1], scope, next, depth);
                match t.result {
                    Err(h) => stop(located(h, at), t.next),
                    Ok(false) => done(Progress::Next { index: index + 1, scope }, t.next),
                    Ok(true) => match jump(f.lines, index, scope, line.nouns[0]) {
                        Err(kind) => stop(located(failed(kind, line.nouns[0]), at), t.next),
                        Ok(to) => done(Progress::Next { index: to, scope }, t.next),
                    },
                }
            },
        }
    }
}

/// The result of the function `f` from the statement at `index` on, in the scope
/// `scope`, with `left` statements left to execute: a `ResourceExhausted` failure where
/// a statement is due and none is left.
pub open spec fn run_from(
    w: World,
    f: FunctionModel,
    index: nat,
    scope: ScopeModel,
    next: nat,
    depth: nat,
    left: nat,
) -> Step<ValueModel>
    decreases depth, 1int, left, 1int,
{
    if index >= f.lines.len() {
        done(ValueModel::Undefined, next)
    } else if left == 0 || index > usize::MAX {
        stop(located(failed(ErrorKind::ResourceExhausted, Seq::empty()), index as usize), next)
    } else {
        let a = advance(w, f, index, scope, next, depth);
        match a.result {
            Err(h) => stop(h, a.next),
            Ok(Progress::Finished(value)) => done(value, a.next),
            Ok(Progress::Next { index, scope }) => run_from(
                w,
                f,
                index,
                scope,
                a.next,
                depth,
                (left - 1) as nat,
            ),
        }
    }
}

/// Whether a `Do` with the condition `text` jumps: where `text` as an expression of
/// type `bool` gives the truth value true, or else where `text` as a condition holds.
pub open spec fn taken(w: World, text: Seq<char>, scope: ScopeModel, next: nat, depth: nat) -> Step<
    bool,
>
    decreases depth, 0int, text.len(), 5int,
{
    let v = eval(w, text, "bool"@, Some(scope), next, depth);
    match v.result {
        Err(h) => stop(h, v.next),
        Ok(ValueModel::Bool(true)) => done(true, v.next),
        Ok(_) => check(w, text, Some(scope), v.next, depth),
    }
}

/// A run with a statement due and a step left goes on with what that statement leaves.
pub proof fn lemma_run_from(
    w: World,
    f: FunctionModel,
    index: nat,
    scope: ScopeModel,
    next: nat,
    depth: nat,
    left: nat,
)
    requires
        index < f.lines.len(),
        index <= usize::MAX,
        left > 0,
    ensures
        run_from(w, f, index, scope, next, depth, left) == ({
            let a = advance(w, f, index, scope, next, depth);
            match a.result {
                Err(h) => stop(h, a.next),
                Ok(Progress::Finished(value)) => done(value, a.next),
                Ok(Progress::Next { index: to, scope: after }) => run_from(
                    w,
                    f,
                    to,
                    after,
                    a.next,
                    depth,
                    (left - 1) as nat,
                ),
            }
        }),
{
    reveal(advance);
}

/// The first comma outside brackets lies within the text or at its end.
pub proof fn lemma_top_comma(s: Seq<char>, depth: nat)
    ensures
        0 <= top_comma(s, depth) <= s.len(),
    decreases s.len(),
{
    if s.len() == 0 || (s[0] == ',' && depth == 0) {
    } else {
        lemma_top_comma(s.drop_first(), depth_after(depth, s[0]));
    }
}

/// The first space lies within the text or at its end.
pub proof fn lemma_position_bounds(rest: Seq<char>)
    ensures
        0 <= position(rest, ' ') <= rest.len(),
{
    crate::text::lemma_position(rest, ' ');
}

/// The value of an operand is shorter than the text that the operand is cut from.
pub proof fn lemma_operand_shorter(rest: Seq<char>, cut: int)
    requires
        0 <= cut <= rest.len(),
        is_pair(rest.take(cut)),
    ensures
        pair_value(rest.take(cut)).len() < rest.len(),
{
    let item = rest.take(cut);
    crate::text::lemma_last_position(item, ':');
    lemma_trim_len(item.take(last_position(item, ':')));
}

} // verus!
