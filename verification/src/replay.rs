//! Why an evaluation may be started again with more replies: what it has done with the
//! replies that it used stays as it was.
//!
//! An evaluation uses the replies in order. It is pending exactly where it has used
//! them all and needs one more; otherwise replies beyond those that it used change
//! nothing of its result.

use crate::error::{HaltModel, ReplyModel};
use crate::semantics::{
    advance, arguments, call, call_arguments, check, eval, frame, initial_condition, is_foreign,
    is_operator, is_pair, items, lemma_operand_shorter, lemma_position_bounds, lemma_top_comma,
    literal, pair_kind, pair_value, run_from, taken, tokens, top_comma, zipped, Comparison,
    Condition, Progress, Step, World,
};
use crate::semantics::{call_name, call_target, combinator_of, token_step};
use crate::environment::{lookup, resolve_import};
use crate::text::{lemma_position, position, starts_with, trim};
use crate::value::{FunctionModel, ScopeModel, ValueModel, Verb};
use vstd::prelude::*;

verus! {

/// Whether the two rows of replies hold the same first `n` replies.
pub open spec fn agree(a: Seq<ReplyModel>, b: Seq<ReplyModel>, n: nat) -> bool {
    &&& n <= a.len()
    &&& n <= b.len()
    &&& forall|i: int| 0 <= i < n ==> a[i] == b[i]
}

/// Whether the step stopped for want of a reply.
pub open spec fn is_pending<T>(s: Step<T>) -> bool {
    s.result matches Err(HaltModel::Pending(_))
}

/// Whether the step `s`, taken from `next` replies used with the replies `a`, is in
/// order, and the step `t` taken with the replies `b` in its place is the same where
/// it has to be:
/// the step uses replies in order and no more than there are; it is pending only
/// where none is left; and unless it is pending, replies that agree with those that
/// it used give the same step.
pub open spec fn steady<T>(
    s: Step<T>,
    t: Step<T>,
    a: Seq<ReplyModel>,
    b: Seq<ReplyModel>,
    next: nat,
) -> bool {
    &&& next <= s.next
    &&& next <= a.len() ==> s.next <= a.len()
    &&& is_pending(s) ==> s.next >= a.len()
    &&& agree(a, b, s.next) && !is_pending(s) ==> t == s
}

/// The world with the replies `replies` and `steps` steps for each invocation.
pub open spec fn with(replies: Seq<ReplyModel>, steps: nat) -> World {
    World { replies, steps }
}

proof fn lemma_eval(
    a: Seq<ReplyModel>,
    b: Seq<ReplyModel>,
    steps: nat,
    text: Seq<char>,
    kind: Seq<char>,
    scope: Option<ScopeModel>,
    next: nat,
    depth: nat,
)
    ensures
        steady(
            eval(with(a, steps), text, kind, scope, next, depth),
            eval(with(b, steps), text, kind, scope, next, depth),
            a,
            b,
            next,
        ),
    decreases depth, 0int, text.len(), 4int,
{
    if scope is Some && text.len() > 0 && text.last() == ')' {
        lemma_call(a, b, steps, text, scope->0, next, depth);
    } else if scope is Some && !(lookup(scope->0, text) is Undefined) {
    } else {
        lemma_literal(a, b, steps, text, kind, scope, next, depth);
    }
}

proof fn lemma_call(
    a: Seq<ReplyModel>,
    b: Seq<ReplyModel>,
    steps: nat,
    text: Seq<char>,
    scope: ScopeModel,
    next: nat,
    depth: nat,
)
    ensures
        steady(
            call(with(a, steps), text, scope, next, depth),
            call(with(b, steps), text, scope, next, depth),
            a,
            b,
            next,
        ),
    decreases depth, 0int, text.len(), 3int,
{
    let name = call_name(call_target(text));
    if position(text, '(') >= text.len() {
    } else {
        lemma_position(text, '(');
        let rest = call_arguments(text);
        if is_foreign(text) {
            if resolve_import(scope, name) is Some {
                lemma_arguments(a, b, steps, rest, Some(scope), next, depth);
            }
        } else {
            if let ValueModel::FunctionRef(f) = lookup(scope, name) {
                if depth > 0 {
                    lemma_arguments(a, b, steps, rest, Some(scope), next, depth);
                    let got = arguments(with(a, steps), rest, Some(scope), next, depth);
                    if let Ok(args) = got.result {
                        if args.len() == f.params.len() {
                            lemma_run_from(
                                a,
                                b,
                                steps,
                                f,
                                0,
                                frame(scope, zipped(f.params, args)),
                                got.next,
                                (depth - 1) as nat,
                                steps,
                            );
                        }
                    }
                }
            }
        }
    }
}

proof fn lemma_literal(
    a: Seq<ReplyModel>,
    b: Seq<ReplyModel>,
    steps: nat,
    text: Seq<char>,
    kind: Seq<char>,
    scope: Option<ScopeModel>,
    next: nat,
    depth: nat,
)
    ensures
        steady(
            literal(with(a, steps), text, kind, scope, next, depth),
            literal(with(b, steps), text, kind, scope, next, depth),
            a,
            b,
            next,
        ),
    decreases depth, 0int, text.len(), 3int,
{
    if kind == "int"@ {
    } else if kind == "float"@ {
    } else if kind == "bool"@ {
        if starts_with(text, "if "@) {
            lemma_check(a, b, steps, text, scope, next, depth);
        }
    } else if kind == "str"@ {
    } else if kind == "list"@ {
        lemma_arguments(a, b, steps, text, scope, next, depth);
    }
}

proof fn lemma_arguments(
    a: Seq<ReplyModel>,
    b: Seq<ReplyModel>,
    steps: nat,
    text: Seq<char>,
    scope: Option<ScopeModel>,
    next: nat,
    depth: nat,
)
    ensures
        steady(
            arguments(with(a, steps), text, scope, next, depth),
            arguments(with(b, steps), text, scope, next, depth),
            a,
            b,
            next,
        ),
    decreases depth, 0int, text.len(), 2int,
{
    if trim(text).len() != 0 {
        lemma_items(a, b, steps, text, Seq::empty(), scope, next, depth);
    }
}

proof fn lemma_items(
    a: Seq<ReplyModel>,
    b: Seq<ReplyModel>,
    steps: nat,
    rest: Seq<char>,
    acc: Seq<ValueModel>,
    scope: Option<ScopeModel>,
    next: nat,
    depth: nat,
)
    ensures
        steady(
            items(with(a, steps), rest, acc, scope, next, depth),
            items(with(b, steps), rest, acc, scope, next, depth),
            a,
            b,
            next,
        ),
    decreases depth, 0int, rest.len(), 1int,
{
    let cut = top_comma(rest, 0);
    let item = rest.take(cut);
    if is_pair(item) {
        lemma_top_comma(rest, 0);
        lemma_operand_shorter(rest, cut);
        lemma_eval(a, b, steps, pair_value(item), pair_kind(item), scope, next, depth);
        let v = eval(with(a, steps), pair_value(item), pair_kind(item), scope, next, depth);
        if let Ok(value) = v.result {
            if 0 <= cut < rest.len() {
                lemma_items(a, b, steps, rest.skip(cut + 1), acc.push(value), scope, v.next, depth);
            }
        }
    }
}

proof fn lemma_check(
    a: Seq<ReplyModel>,
    b: Seq<ReplyModel>,
    steps: nat,
    text: Seq<char>,
    scope: Option<ScopeModel>,
    next: nat,
    depth: nat,
)
    ensures
        steady(
            check(with(a, steps), text, scope, next, depth),
            check(with(b, steps), text, scope, next, depth),
            a,
            b,
            next,
        ),
    decreases depth, 0int, text.len(), 2int,
{
    if text.len() > 3 {
        lemma_tokens(a, b, steps, text.skip(3), initial_condition(), scope, next, depth);
    }
}

proof fn lemma_tokens(
    a: Seq<ReplyModel>,
    b: Seq<ReplyModel>,
    steps: nat,
    rest: Seq<char>,
    state: Condition,
    scope: Option<ScopeModel>,
    next: nat,
    depth: nat,
)
    ensures
        steady(
            tokens(with(a, steps), rest, state, scope, next, depth),
            tokens(with(b, steps), rest, state, scope, next, depth),
            a,
            b,
            next,
        ),
    decreases depth, 0int, rest.len(), 1int,
{
    let cut = position(rest, ' ');
    let token = rest.take(cut);
    lemma_position_bounds(rest);
    let reads = !is_operator(token) && combinator_of(token) is None && token != "not"@
        && state.operator != Some(Comparison::Other) && is_pair(token) && !(state.operator
        is Some && state.left is None);
    if reads {
        lemma_operand_shorter(rest, cut);
        lemma_eval(a, b, steps, pair_value(token), pair_kind(token), scope, next, depth);
    }
    let after = token_step(with(a, steps), rest, state, scope, next, depth);
    let other = token_step(with(b, steps), rest, state, scope, next, depth);
    assert(steady(after, other, a, b, next));
    if let Ok(then) = after.result {
        if 0 <= cut < rest.len() {
            lemma_tokens(a, b, steps, rest.skip(cut + 1), then, scope, after.next, depth);
        }
    }
}

proof fn lemma_taken(
    a: Seq<ReplyModel>,
    b: Seq<ReplyModel>,
    steps: nat,
    text: Seq<char>,
    scope: ScopeModel,
    next: nat,
    depth: nat,
)
    ensures
        steady(
            taken(with(a, steps), text, scope, next, depth),
            taken(with(b, steps), text, scope, next, depth),
            a,
            b,
            next,
        ),
    decreases depth, 0int, text.len(), 5int,
{
    lemma_eval(a, b, steps, text, "bool"@, Some(scope), next, depth);
    let v = eval(with(a, steps), text, "bool"@, Some(scope), next, depth);
    match v.result {
        Err(h) => {},
        Ok(ValueModel::Bool(true)) => {},
        Ok(_) => {
            lemma_check(a, b, steps, text, Some(scope), v.next, depth);
        },
    }
}

proof fn lemma_advance(
    a: Seq<ReplyModel>,
    b: Seq<ReplyModel>,
    steps: nat,
    f: FunctionModel,
    index: nat,
    scope: ScopeModel,
    next: nat,
    depth: nat,
)
    ensures
        steady(
            advance(with(a, steps), f, index, scope, next, depth),
            advance(with(b, steps), f, index, scope, next, depth),
            a,
            b,
            next,
        ),
    decreases depth, 1int, 0int, 0int,
{
    reveal(advance);
    if index < f.lines.len() && index <= usize::MAX {
        let line = f.lines[index as int];
        match line.verb {
            Verb::Assign => {
                if line.nouns.len() >= 3 {
                    lemma_eval(a, b, steps, line.nouns[2], line.nouns[1], Some(scope), next, depth);
                }
            },
            Verb::Return => {
                if line.nouns.len() >= 2 {
                    lemma_eval(a, b, steps, line.nouns[0], line.nouns[1], Some(scope), next, depth);
                }
            },
            Verb::Mark => {},
            Verb::Do => {
                if line.nouns.len() >= 2 {
                    lemma_taken(a, b, steps, line.nouns[1], scope, next, depth);
                }
            },
        }
    }
}

proof fn lemma_run_from(
    a: Seq<ReplyModel>,
    b: Seq<ReplyModel>,
    steps: nat,
    f: FunctionModel,
    index: nat,
    scope: ScopeModel,
    next: nat,
    depth: nat,
    left: nat,
)
    ensures
        steady(
            run_from(with(a, steps), f, index, scope, next, depth, left),
            run_from(with(b, steps), f, index, scope, next, depth, left),
            a,
            b,
            next,
        ),
    decreases depth, 1int, left, 1int,
{
    if index < f.lines.len() && left > 0 && index <= usize::MAX {
        lemma_advance(a, b, steps, f, index, scope, next, depth);
        crate::semantics::lemma_run_from(with(a, steps), f, index, scope, next, depth, left);
        crate::semantics::lemma_run_from(with(b, steps), f, index, scope, next, depth, left);
        let step = advance(with(a, steps), f, index, scope, next, depth);
        if let Ok(Progress::Next { index: to, scope: then }) = step.result {
            lemma_run_from(a, b, steps, f, to, then, step.next, depth, (left - 1) as nat);
        }
    }
}

/// An evaluation that is not pending gives the same with every row of replies that
/// begins with the replies that it used; one that is pending has used them all.
pub proof fn law_evaluation_is_steady(
    a: Seq<ReplyModel>,
    b: Seq<ReplyModel>,
    steps: nat,
    text: Seq<char>,
    kind: Seq<char>,
    scope: Option<ScopeModel>,
    depth: nat,
)
    ensures
        steady(
            eval(with(a, steps), text, kind, scope, 0, depth),
            eval(with(b, steps), text, kind, scope, 0, depth),
            a,
            b,
            0,
        ),
{
    lemma_eval(a, b, steps, text, kind, scope, 0, depth);
}

/// A run that is not pending gives the same with every row of replies that begins
/// with the replies that it used; one that is pending has used them all.
pub proof fn law_run_is_steady(
    a: Seq<ReplyModel>,
    b: Seq<ReplyModel>,
    steps: nat,
    f: FunctionModel,
    scope: ScopeModel,
    depth: nat,
)
    ensures
        steady(
            run_from(with(a, steps), f, 0, scope, 0, depth, steps),
            run_from(with(b, steps), f, 0, scope, 0, depth, steps),
            a,
            b,
            0,
        ),
{
    lemma_run_from(a, b, steps, f, 0, scope, 0, depth, steps);
}

} // verus!
