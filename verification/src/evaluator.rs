//! The evaluator: expressions, conditions and the statements of a function.
//!
//! Every function here computes the function of the same purpose that the semantics
//! define. Calls of outside programs are not made here: the replies to the calls made
//! so far are handed in, and an evaluation that needs one more stops with the request.

use crate::bridge::{interpret_reply, request};
use crate::error::{located, replies_model, ErrorKind, Halt, HaltModel, Reply};
use crate::literal::{float_value, int_value};
use crate::order::Order;
use crate::semantics;
use crate::semantics::{
    advance, compare, frame, lemma_operand_shorter, run_from, settle, zipped, Combinator,
    Comparison, Condition, Progress, Step, World,
};
use crate::syntax::{
    call_parts, combinator, comparison, find_top_comma, is_operator_token, split_pair,
};
use crate::text::{chars_of, find_from, has_prefix, is_word, text_of, texts, trimmed};
use crate::value::{
    lemma_values_model, lemma_values_model_push, values_model, Environment, Function,
    ScopeModel, Value, ValueModel, Verb,
};
use std::rc::Rc;
use vstd::prelude::*;
use vstd::slice::slice_subrange;

verus! {

/// The limits of an evaluation: how deep calls may nest, and how many statements one
/// invocation of a function may execute.
#[derive(Clone, Copy, Debug)]
pub struct Limits {
    pub depth: usize,
    pub steps: usize,
}

/// What stays the same throughout an evaluation with these replies and this many steps.
pub open spec fn world(replies: Seq<Reply>, steps: usize) -> World {
    World { replies: replies_model(replies), steps: steps as nat }
}

/// The model of an optional scope.
pub open spec fn scope_of(scope: Option<&Environment>) -> Option<ScopeModel> {
    match scope {
        Some(e) => Some(e@),
        None => None,
    }
}

/// The step that a result and a number of replies stand for.
pub open spec fn value_step(r: (Result<Value, Halt>, usize)) -> Step<ValueModel> {
    Step {
        result: match r.0 {
            Ok(v) => Ok(v@),
            Err(h) => Err(h@),
        },
        next: r.1 as nat,
    }
}

/// The step that a result and a number of replies stand for.
pub open spec fn values_step(r: (Result<Vec<Value>, Halt>, usize)) -> Step<Seq<ValueModel>> {
    Step {
        result: match r.0 {
            Ok(v) => Ok(values_model(v@)),
            Err(h) => Err(h@),
        },
        next: r.1 as nat,
    }
}

/// The step that a result and a number of replies stand for.
pub open spec fn bool_step(r: (Result<bool, Halt>, usize)) -> Step<bool> {
    Step {
        result: match r.0 {
            Ok(b) => Ok(b),
            Err(h) => Err(h@),
        },
        next: r.1 as nat,
    }
}

/// How far the evaluation of a condition has come.
#[derive(Debug)]
pub struct Pending {
    pub operator: Option<Comparison>,
    pub left: Option<Value>,
    pub combinator: Option<Combinator>,
    pub negate: bool,
    pub current: bool,
    pub outcome: bool,
}

impl View for Pending {
    type V = Condition;

    open spec fn view(&self) -> Condition {
        Condition {
            operator: self.operator,
            left: match self.left {
                Some(v) => Some(v@),
                None => None,
            },
            combinator: self.combinator,
            negate: self.negate,
            current: self.current,
            outcome: self.outcome,
        }
    }
}

impl Pending {
    /// The state after a comparison is complete.
    pub fn settled(self) -> (r: Pending)
        ensures
            r@ == settle(self@),
    {
        let current = if self.negate {
            !self.current
        } else {
            self.current
        };
        let outcome = match self.combinator {
            Some(Combinator::And) => self.outcome && current,
            Some(Combinator::Or) => self.outcome || current,
            Some(Combinator::Xor) => self.outcome != current,
            None => current,
        };
        Pending {
            operator: self.operator,
            left: self.left,
            combinator: None,
            negate: false,
            current,
            outcome,
        }
    }
}

/// Whether the comparison `op` holds between `left` and `right`.
pub fn holds_between(op: Comparison, left: &Value, right: &Value) -> (r: bool)
    ensures
        r == compare(op, left@, right@),
{
    match op {
        Comparison::Equal => left.compare_equals(right),
        Comparison::AtMost => match left.compare_order(right) {
            Some(Order::Less) => true,
            Some(Order::Equal) => true,
            _ => false,
        },
        Comparison::AtLeast => match left.compare_order(right) {
            Some(Order::Greater) => true,
            Some(Order::Equal) => true,
            _ => false,
        },
        Comparison::Below => match left.compare_order(right) {
            Some(Order::Less) => true,
            _ => false,
        },
        Comparison::Above => match left.compare_order(right) {
            Some(Order::Greater) => true,
            _ => false,
        },
        Comparison::Other => false,
    }
}

/// The value of the expression `text` of the declared type `kind`.
pub fn eval(
    replies: &Vec<Reply>,
    steps: usize,
    text: &[char],
    kind: &[char],
    scope: Option<&Environment>,
    next: usize,
    depth: usize,
) -> (r: (Result<Value, Halt>, usize))
    ensures
        value_step(r) == semantics::eval(
            world(replies@, steps),
            text@,
            kind@,
            scope_of(scope),
            next as nat,
            depth as nat,
        ),
    decreases depth, 0int, text@.len(), 3int,
{
    match scope {
        Some(env) => {
            if text.len() > 0 && text[text.len() - 1] == ')' {
                return call(replies, steps, text, env, next, depth);
            }
            let name = text_of(text);
            let found = env.search(&name);
            match found {
                Value::Undefined => {},
                _ => {
                    return (Ok(found), next);
                },
            }
        },
        None => {},
    }
    literal(replies, steps, text, kind, scope, next, depth)
}

/// The value of the call `text`.
pub fn call(
    replies: &Vec<Reply>,
    steps: usize,
    text: &[char],
    env: &Environment,
    next: usize,
    depth: usize,
) -> (r: (Result<Value, Halt>, usize))
    ensures
        value_step(r) == semantics::call(world(replies@, steps), text@, env@, next as nat, depth as nat),
    decreases depth, 0int, text@.len(), 2int,
{
    let (foreign, name, rest) = match call_parts(text) {
        Some(parts) => parts,
        None => {
            return (Err(Halt::failure(ErrorKind::ParseError, text)), next);
        },
    };
    let key = text_of(name);
    if foreign {
        let path = match env.resolve_import(&key) {
            Some(path) => path,
            None => {
                return (Err(Halt::failure(ErrorKind::UndefinedReference, name)), next);
            },
        };
        let (a, used) = arguments(replies, steps, rest, Some(env), next, depth);
        match a {
            Err(h) => (Err(h), used),
            Ok(args) => {
                if used >= replies.len() {
                    (Err(Halt::Pending(request(&path, &args))), used)
                } else {
                    (interpret_reply(&replies[used]), used + 1)
                }
            },
        }
    } else {
        match env.search(&key) {
            Value::FunctionRef(f) => {
                if depth == 0 {
                    return (Err(Halt::failure(ErrorKind::ResourceExhausted, text)), next);
                }
                let (a, used) = arguments(replies, steps, rest, Some(env), next, depth);
                match a {
                    Err(h) => (Err(h), used),
                    Ok(args) => {
                        proof {
                            lemma_values_model(args@);
                        }
                        if args.len() != f.params.len() {
                            return (Err(Halt::failure(ErrorKind::TypeError, text)), used);
                        }
                        let inner = callee_frame(env, &f.params, &args);
                        run_frame(replies, steps, &f, inner, used, depth - 1)
                    },
                }
            },
            Value::Undefined => (Err(Halt::failure(ErrorKind::UndefinedReference, name)), next),
            _ => (Err(Halt::failure(ErrorKind::NotCallableError, name)), next),
        }
    }
}

/// The value of the literal `text` of the declared type `kind`.
pub fn literal(
    replies: &Vec<Reply>,
    steps: usize,
    text: &[char],
    kind: &[char],
    scope: Option<&Environment>,
    next: usize,
    depth: usize,
) -> (r: (Result<Value, Halt>, usize))
    ensures
        value_step(r) == semantics::literal(
            world(replies@, steps),
            text@,
            kind@,
            scope_of(scope),
            next as nat,
            depth as nat,
        ),
    decreases depth, 0int, text@.len(), 2int,
{
    if is_word(kind, "int") {
        match int_value(text) {
            Some(v) => (Ok(v), next),
            None => (Err(Halt::failure(ErrorKind::TypeError, text)), next),
        }
    } else if is_word(kind, "float") {
        match float_value(text) {
            Some(v) => (Ok(v), next),
            None => (Err(Halt::failure(ErrorKind::TypeError, text)), next),
        }
    } else if is_word(kind, "bool") {
        if has_prefix(text, "if ") {
            let (c, used) = check(replies, steps, text, scope, next, depth);
            match c {
                Ok(b) => (Ok(Value::Bool(b)), used),
                Err(h) => (Err(h), used),
            }
        } else if is_word(text, "true") {
            (Ok(Value::Bool(true)), next)
        } else if is_word(text, "false") {
            (Ok(Value::Bool(false)), next)
        } else {
            (Ok(Value::Undefined), next)
        }
    } else if is_word(kind, "str") {
        (Ok(Value::Str(text_of(trimmed(text)))), next)
    } else if is_word(kind, "list") {
        let (a, used) = arguments(replies, steps, text, scope, next, depth);
        match a {
            Ok(list) => (Ok(Value::List(list)), used),
            Err(h) => (Err(h), used),
        }
    } else if is_word(kind, "undefined") {
        (Ok(Value::Undefined), next)
    } else if is_word(kind, "none") {
        (Ok(Value::Null), next)
    } else if is_word(kind, "env") {
        (Ok(Value::EnvironmentRef(Rc::new(Environment::new(None)))), next)
    } else {
        (Ok(Value::Undefined), next)
    }
}

/// The values of the items of `text`; none where `text` is blank.
pub fn arguments(
    replies: &Vec<Reply>,
    steps: usize,
    text: &[char],
    scope: Option<&Environment>,
    next: usize,
    depth: usize,
) -> (r: (Result<Vec<Value>, Halt>, usize))
    ensures
        values_step(r) == semantics::arguments(
            world(replies@, steps),
            text@,
            scope_of(scope),
            next as nat,
            depth as nat,
        ),
    decreases depth, 0int, text@.len(), 1int,
{
    if trimmed(text).len() == 0 {
        (Ok(Vec::new()), next)
    } else {
        items(replies, steps, text, Vec::new(), scope, next, depth)
    }
}

/// `acc` and, after it, the values of the items of `rest`.
pub fn items(
    replies: &Vec<Reply>,
    steps: usize,
    rest: &[char],
    acc: Vec<Value>,
    scope: Option<&Environment>,
    next: usize,
    depth: usize,
) -> (r: (Result<Vec<Value>, Halt>, usize))
    ensures
        values_step(r) == semantics::items(
            world(replies@, steps),
            rest@,
            values_model(acc@),
            scope_of(scope),
            next as nat,
            depth as nat,
        ),
    decreases depth, 0int, rest@.len(), 0int,
{
    let ghost w = world(replies@, steps);
    let ghost goal = semantics::items(
        w,
        rest@,
        values_model(acc@),
        scope_of(scope),
        next as nat,
        depth as nat,
    );
    let mut r: (Result<Vec<Value>, Halt>, usize) = (Ok(Vec::new()), next);
    let mut acc = acc;
    let mut start: usize = 0;
    let mut used = next;
    assert(rest@.skip(0) == rest@);
    loop
        invariant_except_break
            start <= rest.len(),
            goal == semantics::items(
                w,
                rest@.skip(start as int),
                values_model(acc@),
                scope_of(scope),
                used as nat,
                depth as nat,
            ),
        invariant
            w == world(replies@, steps),
        ensures
            values_step(r) == goal,
        decreases rest.len() - start,
    {
        let tail = slice_subrange(rest, start, rest.len());
        assert(tail@ == rest@.skip(start as int));
        let cut = find_top_comma(tail);
        let item = slice_subrange(tail, 0, cut);
        match split_pair(item) {
            None => {
                r = (Err(Halt::failure(ErrorKind::ParseError, item)), used);
                break;
            },
            Some((value, kind)) => {
                proof {
                    lemma_operand_shorter(tail@, cut as int);
                }
                let (v, after) = eval(replies, steps, value, kind, scope, used, depth);
                used = after;
                match v {
                    Err(h) => {
                        r = (Err(h), used);
                        break;
                    },
                    Ok(value) => {
                        proof {
                            lemma_values_model_push(acc@, value);
                        }
                        acc.push(value);
                        if cut < tail.len() {
                            assert(tail@.skip(cut + 1) == rest@.skip(start + cut + 1));
                            start = start + cut + 1;
                        } else {
                            r = (Ok(acc), used);
                            break;
                        }
                    },
                }
            },
        }
    }
    r
}

/// Whether the condition `text` holds.
pub fn check(
    replies: &Vec<Reply>,
    steps: usize,
    text: &[char],
    scope: Option<&Environment>,
    next: usize,
    depth: usize,
) -> (r: (Result<bool, Halt>, usize))
    ensures
        bool_step(r) == semantics::check(
            world(replies@, steps),
            text@,
            scope_of(scope),
            next as nat,
            depth as nat,
        ),
    decreases depth, 0int, text@.len(), 1int,
{
    if text.len() <= 3 {
        (Err(Halt::failure(ErrorKind::ParseError, text)), next)
    } else {
        let start = Pending {
            operator: None,
            left: None,
            combinator: None,
            negate: false,
            current: false,
            outcome: false,
        };
        tokens(replies, steps, slice_subrange(text, 3, text.len()), start, scope, next, depth)
    }
}

/// The outcome of a condition in the state `state` whose tokens left to read are `rest`.
pub fn tokens(
    replies: &Vec<Reply>,
    steps: usize,
    rest: &[char],
    state: Pending,
    scope: Option<&Environment>,
    next: usize,
    depth: usize,
) -> (r: (Result<bool, Halt>, usize))
    ensures
        bool_step(r) == semantics::tokens(
            world(replies@, steps),
            rest@,
            state@,
            scope_of(scope),
            next as nat,
            depth as nat,
        ),
    decreases depth, 0int, rest@.len(), 0int,
{
    let ghost w = world(replies@, steps);
    let ghost goal = semantics::tokens(
        w,
        rest@,
        state@,
        scope_of(scope),
        next as nat,
        depth as nat,
    );
    let mut r: (Result<bool, Halt>, usize) = (Ok(false), next);
    let mut state = state;
    let mut start: usize = 0;
    let mut used = next;
    assert(rest@.skip(0) == rest@);
    loop
        invariant_except_break
            start <= rest.len(),
            goal == semantics::tokens(
                w,
                rest@.skip(start as int),
                state@,
                scope_of(scope),
                used as nat,
                depth as nat,
            ),
        invariant
            w == world(replies@, steps),
        ensures
            bool_step(r) == goal,
        decreases rest.len() - start,
    {
        let tail = slice_subrange(rest, start, rest.len());
        assert(tail@ == rest@.skip(start as int));
        assert(tail@.skip(0) == tail@);
        proof {
            reveal_with_fuel(semantics::tokens, 2);
        }
        let cut = find_from(tail, ' ', 0);
        let token = slice_subrange(tail, 0, cut);
        if is_operator_token(token) {
            state.operator = Some(comparison(token));
        } else if combinator(token).is_some() {
            state.combinator = combinator(token);
        } else if is_word(token, "not") {
            state.negate = true;
        } else if matches!(state.operator, Some(Comparison::Other)) {
            state = state.settled();
        } else {
            let (value, kind) = match split_pair(token) {
                Some(pair) => pair,
                None => {
                    r = (Err(Halt::failure(ErrorKind::ParseError, token)), used);
                    break;
                },
            };
            if state.operator.is_some() && state.left.is_none() {
                r = (Err(Halt::failure(ErrorKind::ParseError, token)), used);
                break;
            }
            proof {
                lemma_operand_shorter(tail@, cut as int);
            }
            let (v, after) = eval(replies, steps, value, kind, scope, used, depth);
            used = after;
            match v {
                Err(h) => {
                    r = (Err(h), used);
                    break;
                },
                Ok(value) => match state.operator {
                    None => {
                        state.left = Some(value);
                    },
                    Some(op) => {
                        let current = match &state.left {
                            Some(left) => holds_between(op, left, &value),
                            None => false,
                        };
                        state = Pending {
                            operator: None,
                            left: None,
                            combinator: state.combinator,
                            negate: state.negate,
                            current,
                            outcome: state.outcome,
                        }.settled();
                    },
                },
            }
        }
        if cut < tail.len() {
            assert(tail@.skip(cut + 1) == rest@.skip(start + cut + 1));
            start = start + cut + 1;
        } else {
            r = (Ok(state.outcome), used);
            break;
        }
    }
    r
}

/// Whether a `Do` with the condition `text` jumps.
pub fn taken(
    replies: &Vec<Reply>,
    steps: usize,
    text: &[char],
    env: &Environment,
    next: usize,
    depth: usize,
) -> (r: (Result<bool, Halt>, usize))
    ensures
        bool_step(r) == semantics::taken(world(replies@, steps), text@, env@, next as nat, depth as nat),
    decreases depth, 0int, text@.len(), 4int,
{
    let kind = chars_of("bool");
    let (v, used) = eval(replies, steps, text, kind.as_slice(), Some(env), next, depth);
    match v {
        Err(h) => (Err(h), used),
        Ok(Value::Bool(true)) => (Ok(true), used),
        Ok(_) => check(replies, steps, text, Some(env), used, depth),
    }
}

/// The scope in which a function runs that was called from `env` with the arguments
/// `args` for the parameters `params`.
pub fn callee_frame(env: &Environment, params: &Vec<String>, args: &Vec<Value>) -> (r:
    Environment)
    requires
        params.len() == args.len(),
    ensures
        r@ == frame(env@, zipped(texts(params@), values_model(args@))),
{
    let mut inner = Environment::new(Some(Rc::new(env.clone())));
    let ghost names = texts(params@);
    let ghost values = values_model(args@);
    proof {
        lemma_values_model(args@);
        assert(names.take(0) =~= Seq::<Seq<char>>::empty());
        assert(inner@.vars =~= zipped(names.take(0), values.take(0)));
        assert(inner@.imports =~= Map::<Seq<char>, Seq<char>>::empty());
    }
    let mut i: usize = 0;
    while i < params.len()
        invariant
            i <= params.len(),
            params.len() == args.len(),
            names == texts(params@),
            values == values_model(args@),
            values.len() == args.len(),
            forall|k: int| 0 <= k < args.len() ==> values[k] == #[trigger] args@[k]@,
            inner@ == frame(env@, zipped(names.take(i as int), values.take(i as int))),
        decreases params.len() - i,
    {
        inner.bind(params[i].clone(), args[i].clone());
        proof {
            assert(names.take(i + 1).drop_last() == names.take(i as int));
            assert(values.take(i + 1).drop_last() == values.take(i as int));
            assert(names.take(i + 1).last() == params@[i as int]@);
            assert(values.take(i + 1).last() == args@[i as int]@);
        }
        i += 1;
    }
    proof {
        assert(names.take(params.len() as int) == names);
        assert(values.take(params.len() as int) == values);
    }
    inner
}

/// Where the run goes on after a statement.
#[derive(Debug)]
pub enum Advance {
    /// With the statement at this index.
    Next(usize),
    /// Nowhere: the invocation has ended with this value.
    Finished(Value),
}

/// Whether what a statement left behind is what the semantics say.
pub open spec fn advanced(
    r: (Result<Advance, Halt>, usize),
    after: ScopeModel,
    expected: Step<Progress>,
) -> bool {
    &&& r.1 == expected.next
    &&& match (r.0, expected.result) {
        (Ok(Advance::Next(i)), Ok(Progress::Next { index, scope })) => i == index && after
            == scope,
        (Ok(Advance::Finished(v)), Ok(Progress::Finished(m))) => v@ == m,
        (Err(h), Err(m)) => h@ == m,
        _ => false,
    }
}

/// Executes the statement of `f` at `index` in the scope `env`; a statement that
/// halts leaves the scope as it was.
pub fn step(
    replies: &Vec<Reply>,
    steps: usize,
    f: &Function,
    index: usize,
    env: &mut Environment,
    next: usize,
    depth: usize,
) -> (r: (Result<Advance, Halt>, usize))
    ensures
        r.0 is Err ==> *final(env) == *old(env),
        advanced(
            r,
            final(env)@,
            advance(
                world(replies@, steps),
                f@,
                index as nat,
                old(env)@,
                next as nat,
                depth as nat,
            ),
        ),
    decreases depth, 1int, 0int, 0int,
{
    reveal(advance);
    if index >= f.lines.len() {
        return (Ok(Advance::Finished(Value::Undefined)), next);
    }
    let line = &f.lines[index];
    let ghost model = f@.lines[index as int];
    assert(model == line@);
    assert(model.nouns.len() == line.nouns.len());
    assert(forall|k: int| 0 <= k < line.nouns.len() ==> model.nouns[k] == #[trigger] line.nouns@[k]@);
    let empty: Vec<char> = Vec::new();
    match line.verb {
        Verb::Assign => {
            if line.nouns.len() < 3 {
                return (
                    Err(Halt::failure(ErrorKind::ParseError, empty.as_slice()).located(index)),
                    next,
                );
            }
            let text = chars_of(line.nouns[2].as_str());
            let kind = chars_of(line.nouns[1].as_str());
            let (v, used) = eval(
                replies,
                steps,
                text.as_slice(),
                kind.as_slice(),
                Some(&*env),
                next,
                depth,
            );
            match v {
                Err(h) => (Err(h.located(index)), used),
                Ok(value) => {
                    env.bind(line.nouns[0].clone(), value);
                    (Ok(Advance::Next(index + 1)), used)
                },
            }
        },
        Verb::Return => {
            if line.nouns.len() < 2 {
                return (
                    Err(Halt::failure(ErrorKind::ParseError, empty.as_slice()).located(index)),
                    next,
                );
            }
            let text = chars_of(line.nouns[0].as_str());
            let kind = chars_of(line.nouns[1].as_str());
            let (v, used) = eval(
                replies,
                steps,
                text.as_slice(),
                kind.as_slice(),
                Some(&*env),
                next,
                depth,
            );
            match v {
                Err(h) => (Err(h.located(index)), used),
                Ok(value) => (Ok(Advance::Finished(value)), used),
            }
        },
        Verb::Mark => {
            if line.nouns.len() < 1 {
                return (
                    Err(Halt::failure(ErrorKind::ParseError, empty.as_slice()).located(index)),
                    next,
                );
            }
            if index > i32::MAX as usize {
                let name = chars_of(line.nouns[0].as_str());
                return (
                    Err(
                        Halt::failure(ErrorKind::ResourceExhausted, name.as_slice()).located(index),
                    ),
                    next,
                );
            }
            env.bind(line.nouns[0].clone(), Value::Int(index as i32));
            (Ok(Advance::Next(index + 1)), next)
        },
        Verb::Do => {
            if line.nouns.len() < 2 {
                return (
                    Err(Halt::failure(ErrorKind::ParseError, empty.as_slice()).located(index)),
                    next,
                );
            }
            let text = chars_of(line.nouns[1].as_str());
            let (t, used) = taken(replies, steps, text.as_slice(), &*env, next, depth);
            match t {
                Err(h) => (Err(h.located(index)), used),
                Ok(false) => (Ok(Advance::Next(index + 1)), used),
                Ok(true) => {
                    let target = chars_of(line.nouns[0].as_str());
                    match crate::runner::jump_to(&f.lines, index, &*env, target.as_slice()) {
                        Err(kind) => (
                            Err(Halt::failure(kind, target.as_slice()).located(index)),
                            used,
                        ),
                        Ok(to) => (Ok(Advance::Next(to)), used),
                    }
                },
            }
        },
    }
}

/// The result of the function `f` in the scope `env`.
pub fn run_frame(
    replies: &Vec<Reply>,
    steps: usize,
    f: &Function,
    env: Environment,
    next: usize,
    depth: usize,
) -> (r: (Result<Value, Halt>, usize))
    ensures
        value_step(r) == run_from(
            world(replies@, steps),
            f@,
            0,
            env@,
            next as nat,
            depth as nat,
            steps as nat,
        ),
    decreases depth, 1int, 1int, 0int,
{
    let mut r: (Result<Value, Halt>, usize) = (Ok(Value::Undefined), next);
    let ghost w = world(replies@, steps);
    let ghost start = env@;
    let ghost goal = run_from(w, f@, 0, start, next as nat, depth as nat, steps as nat);
    let mut env = env;
    let mut index: usize = 0;
    let mut used = next;
    let mut left = steps;
    assert(f@.lines.len() == f.lines.len());
    loop
        invariant_except_break
            goal == run_from(w, f@, index as nat, env@, used as nat, depth as nat, left as nat),
        invariant
            w == world(replies@, steps),
            f@.lines.len() == f.lines.len(),
        ensures
            value_step(r) == goal,
        decreases left,
    {
        let ghost here = run_from(
            w,
            f@,
            index as nat,
            env@,
            used as nat,
            depth as nat,
            left as nat,
        );
        if index >= f.lines.len() {
            assert(here == semantics::done(ValueModel::Undefined, used as nat));
            r = (Ok(Value::Undefined), used);
            break;
        }
        if left == 0 {
            let empty: Vec<char> = Vec::new();
            assert(here == semantics::stop::<ValueModel>(
                located(crate::error::failed(ErrorKind::ResourceExhausted, Seq::empty()), index),
                used as nat,
            ));
            r = (
                Err(Halt::failure(ErrorKind::ResourceExhausted, empty.as_slice()).located(index)),
                used,
            );
            break;
        }
        let ghost expected = advance(w, f@, index as nat, env@, used as nat, depth as nat);
        proof {
            semantics::lemma_run_from(
                w,
                f@,
                index as nat,
                env@,
                used as nat,
                depth as nat,
                left as nat,
            );
        }
        assert(here == match expected.result {
            Err(h) => semantics::stop(h, expected.next),
            Ok(Progress::Finished(value)) => semantics::done(value, expected.next),
            Ok(Progress::Next { index, scope }) => run_from(
                w,
                f@,
                index,
                scope,
                expected.next,
                depth as nat,
                (left - 1) as nat,
            ),
        });
        let (a, after) = step(replies, steps, f, index, &mut env, used, depth);
        used = after;
        match a {
            Err(h) => {
                r = (Err(h), used);
                break;
            },
            Ok(Advance::Finished(value)) => {
                r = (Ok(value), used);
                break;
            },
            Ok(Advance::Next(to)) => {
                index = to;
                left = left - 1;
            },
        }
    }
    r
}

/// The model of a result that is a value.
pub open spec fn value_result(r: Result<Value, Halt>) -> Result<ValueModel, HaltModel> {
    match r {
        Ok(v) => Ok(v@),
        Err(h) => Err(h@),
    }
}

/// The model of a result that is a truth value.
pub open spec fn bool_result(r: Result<bool, Halt>) -> Result<bool, HaltModel> {
    match r {
        Ok(b) => Ok(b),
        Err(h) => Err(h@),
    }
}

/// The value of the expression `value` of the declared type `var_type` in the scope
/// `env`, given the replies of the outside programs called so far.
///
/// With a scope, a text that ends with a closing bracket is a call, and a text that
/// the scope binds stands for what it is bound to; every other text is a literal of
/// its declared type. Where the evaluation comes to a call of an outside program that
/// `replies` holds no reply for, it stops with that call pending.
pub fn evaluate(
    value: &str,
    var_type: &str,
    env: Option<&Environment>,
    replies: &Vec<Reply>,
    limits: Limits,
) -> (r: Result<Value, Halt>)
    ensures
        value_result(r) == semantics::eval(
            world(replies@, limits.steps),
            value@,
            var_type@,
            scope_of(env),
            0,
            limits.depth as nat,
        ).result,
{
    let text = chars_of(value);
    let kind = chars_of(var_type);
    eval(replies, limits.steps, text.as_slice(), kind.as_slice(), env, 0, limits.depth).0
}

/// Whether the condition `conditional` holds in the scope `env`, given the replies of
/// the outside programs called so far.
///
/// The condition, after its first three characters, is a row of tokens with single
/// spaces between them, read from left to right without precedence.
pub fn check_conditional(
    conditional: &str,
    env: Option<&Environment>,
    replies: &Vec<Reply>,
    limits: Limits,
) -> (r: Result<bool, Halt>)
    ensures
        bool_result(r) == semantics::check(
            world(replies@, limits.steps),
            conditional@,
            scope_of(env),
            0,
            limits.depth as nat,
        ).result,
{
    let text = chars_of(conditional);
    check(replies, limits.steps, text.as_slice(), env, 0, limits.depth).0
}

} // verus!
