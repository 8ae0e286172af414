//! Laws of the language, each proved from the definitions of the semantics.

use crate::compare::equals;
use crate::environment::{bind, lookup};
use crate::error::{failed, located, ErrorKind, HaltModel};
use crate::float::{
    exponent_mark, float_literal, float_text, leading_zeros, lemma_leading_zeros_is,
    lemma_trailing_zeros_is, normal, normalize, number_literal, plain_digits, significant, zero,
    zeros, FloatModel,
};
use crate::number::{all_digits, int_literal, is_digit, lemma_int_text_literal, unsigned};
use crate::render::serialized;
use crate::semantics::{advance, done, literal, taken, within, Progress, World};
use crate::text::{lemma_position_is, lowered, position, starts_with};
use crate::value::{FunctionModel, ScopeModel, ValueModel, Verb};
use vstd::prelude::*;

verus! {

/// The digits of a finite value in plain notation are digits and at most one full
/// stop, and the first of them is a digit.
proof fn lemma_plain_digits(digits: Seq<char>, point: int)
    requires
        normal(FloatModel::Finite { negative: false, digits, point }),
    ensures
        plain_digits(digits, point).len() > 0,
        is_digit(plain_digits(digits, point)[0]),
        forall|i: int|
            0 <= i < plain_digits(digits, point).len() ==> is_digit(
                #[trigger] plain_digits(digits, point)[i],
            ) || plain_digits(digits, point)[i] == '.',
{
    let plain = plain_digits(digits, point);
    if digits.len() == 0 {
    } else if point <= 0 {
        assert(plain[0] == '0');
    } else if point >= digits.len() {
        assert(plain[0] == digits[0]);
    } else {
        assert(plain[0] == digits[0]);
        assert forall|i: int| 0 <= i < plain.len() implies is_digit(#[trigger] plain[i]) || plain[i]
            == '.' by {
            if i < point {
                assert(plain[i] == digits[i]);
            } else if i > point {
                assert(plain[i] == digits[i - 1]);
            }
        }
    }
}

/// Plain notation writes the value that it is the notation of.
proof fn lemma_plain_number(negative: bool, digits: Seq<char>, point: int)
    requires
        normal(FloatModel::Finite { negative, digits, point }),
    ensures
        number_literal(negative, plain_digits(digits, point)) == Some(
            FloatModel::Finite { negative, digits, point },
        ),
{
    let plain = plain_digits(digits, point);
    lemma_plain_digits(digits, point);
    lemma_position_is(plain, 'e', plain.len() as int);
    lemma_position_is(plain, 'E', plain.len() as int);
    assert(exponent_mark(plain) == plain.len());
    assert(plain.take(plain.len() as int) == plain);
    if digits.len() == 0 {
        lemma_position_is(plain, '.', 1);
        let whole = plain.take(1);
        assert(whole == seq!['0']);
        assert(whole + Seq::<char>::empty() == whole);
        lemma_leading_zeros_is(whole, 1);
        assert(whole.skip(1) == Seq::<char>::empty());
        assert(significant(whole) =~= Seq::<char>::empty());
        assert(digits =~= Seq::<char>::empty());
        assert(all_digits(whole));
        assert(normalize(negative, whole, 1) == zero(negative));
        assert(number_literal(negative, plain) == Some(
            FloatModel::Finite { negative, digits, point },
        ));
    } else if point <= 0 {
        lemma_position_is(plain, '.', 1);
        let whole = plain.take(1);
        let fraction = plain.skip(2);
        assert(whole == seq!['0']);
        assert(fraction == zeros((-point) as nat) + digits);
        let all = whole + fraction;
        assert(all_digits(fraction));
        lemma_leading_zeros_is(all, 1 - point);
        let body = all.skip(1 - point);
        assert(body == digits);
        lemma_trailing_zeros_is(body, 0);
        assert(body.take(body.len() as int) == body);
        assert(all_digits(whole));
        assert(normalize(negative, all, 1) == FloatModel::Finite { negative, digits, point });
        assert(number_literal(negative, plain) == Some(
            FloatModel::Finite { negative, digits, point },
        ));
    } else if point >= digits.len() {
        lemma_position_is(plain, '.', plain.len() as int);
        assert(plain + Seq::<char>::empty() == plain);
        lemma_leading_zeros_is(plain, 0);
        assert(plain.skip(0) == plain);
        lemma_trailing_zeros_is(plain, point - digits.len());
        assert(plain.take(digits.len() as int) == digits);
        assert(all_digits(plain));
        assert(normalize(negative, plain, point) == FloatModel::Finite { negative, digits, point });
        assert(number_literal(negative, plain) == Some(
            FloatModel::Finite { negative, digits, point },
        ));
    } else {
        lemma_position_is(plain, '.', point);
        let whole = plain.take(point);
        let fraction = plain.skip(point + 1);
        assert(whole == digits.take(point));
        assert(fraction == digits.skip(point));
        assert(whole + fraction == digits);
        lemma_leading_zeros_is(digits, 0);
        assert(digits.skip(0) == digits);
        lemma_trailing_zeros_is(digits, 0);
        assert(digits.take(digits.len() as int) == digits);
        assert(all_digits(whole) && all_digits(fraction));
        assert(normalize(negative, digits, point) == FloatModel::Finite { negative, digits, point });
        assert(number_literal(negative, plain) == Some(
            FloatModel::Finite { negative, digits, point },
        ));
    }
}

/// The text of a floating-point value writes that value.
pub proof fn lemma_float_text_literal(m: FloatModel)
    requires
        normal(m),
    ensures
        float_literal(float_text(m)) == Some(m),
{
    let text = float_text(m);
    match m {
        FloatModel::NaN => {
            assert(lowered(text) =~= seq!['n', 'a', 'n']);
            assert(lowered(text) != seq!['i', 'n', 'f']);
            assert(lowered(text).len() != seq!['i', 'n', 'f', 'i', 'n', 'i', 't', 'y'].len());
        },
        FloatModel::Infinite { negative } => {
            if negative {
                assert(unsigned(text) =~= seq!['i', 'n', 'f']);
            }
            assert(lowered(unsigned(text)) =~= seq!['i', 'n', 'f']);
        },
        FloatModel::Finite { negative, digits, point } => {
            let plain = plain_digits(digits, point);
            lemma_plain_digits(digits, point);
            lemma_plain_number(negative, digits, point);
            if negative {
                assert(text.skip(1) == plain);
            }
            assert(unsigned(text) == plain);
            assert(lowered(plain)[0] == plain[0]);
            assert(lowered(plain) != seq!['i', 'n', 'f']) by {
                assert(seq!['i', 'n', 'f'][0] == 'i');
            }
            assert(lowered(plain) != seq!['i', 'n', 'f', 'i', 'n', 'i', 't', 'y']) by {
                assert(seq!['i', 'n', 'f', 'i', 'n', 'i', 't', 'y'][0] == 'i');
            }
            assert(lowered(plain) != seq!['n', 'a', 'n']) by {
                assert(seq!['n', 'a', 'n'][0] == 'n');
            }
        },
    }
}

/// What a floating-point literal writes is in normal form.
pub proof fn lemma_literal_normal(text: Seq<char>)
    ensures
        float_literal(text) matches Some(m) ==> normal(m),
{
    let body = unsigned(text);
    let mark = exponent_mark(body);
    let mantissa = body.take(mark);
    let dot = position(mantissa, '.');
    let whole = mantissa.take(dot);
    let fraction = if dot < mantissa.len() {
        mantissa.skip(dot + 1)
    } else {
        Seq::empty()
    };
    if all_digits(whole) && all_digits(fraction) {
        let all = whole + fraction;
        crate::float::lemma_leading_zeros(all);
        crate::float::lemma_trailing_zeros(all.skip(leading_zeros(all) as int));
    }
}

/// Whether `kind` is one of the types `int`, `float` and `bool`.
pub open spec fn is_plain_kind(kind: Seq<char>) -> bool {
    kind == "int"@ || kind == "float"@ || kind == "bool"@
}

/// A literal of type `int`, `float` or `bool` that is no condition comes back from its
/// serialised form: the serialised value, read as a literal of the same type, is that
/// value again, and equal to it unless it is `NaN`, which equals nothing.
///
/// A literal of type `str` does not come back: its serialised form stands between
/// quotation marks, which reading it keeps.
pub proof fn law_literal_round_trip(
    w: World,
    t: Seq<char>,
    kind: Seq<char>,
    scope: Option<ScopeModel>,
    next: nat,
    depth: nat,
)
    requires
        is_plain_kind(kind),
        !starts_with(t, "if "@),
        literal(w, t, kind, scope, next, depth).result is Ok,
    ensures
        ({
            let v = literal(w, t, kind, scope, next, depth).result->Ok_0;
            &&& literal(w, serialized(v), kind, scope, next, depth) == done(v, next)
            &&& !(v matches ValueModel::Float(FloatModel::NaN)) ==> equals(v, v)
        }),
{
    reveal_strlit("int");
    reveal_strlit("float");
    reveal_strlit("bool");
    reveal_strlit("if ");
    reveal_strlit("true");
    reveal_strlit("false");
    reveal_strlit("undefined");
    let v = literal(w, t, kind, scope, next, depth).result->Ok_0;
    if kind == "int"@ {
        let n = int_literal(t)->0;
        lemma_int_text_literal(n);
    } else if kind == "float"@ {
        let m = float_literal(t)->0;
        lemma_literal_normal(t);
        lemma_float_text_literal(m);
        lemma_float_equals_itself(m);
    } else {
        let s = serialized(v);
        assert(s.len() > 3 ==> s[0] != 'i');
        assert(!starts_with(s, "if "@)) by {
            if starts_with(s, "if "@) {
                assert(s.take(3)[0] == 'i');
            }
        }
        if t == "true"@ {
        } else if t == "false"@ {
        } else {
            assert("undefined"@.len() != "true"@.len());
            assert("undefined"@.len() != "false"@.len());
        }
    }
}

/// Whether `text` is evaluated as a literal in `scope`: there is no scope, or the text
/// is no call and the scope binds it to nothing.
pub open spec fn reads_as_literal(text: Seq<char>, scope: Option<ScopeModel>) -> bool {
    scope is None || (!(text.len() > 0 && text.last() == ')') && lookup(scope->0, text)
        is Undefined)
}

/// Evaluating a literal of type `int`, `float` or `bool`, serialising the value and
/// evaluating the serialised text gives the value again, which is equal to itself
/// unless it is `NaN`.
pub proof fn law_evaluate_round_trip(
    w: World,
    t: Seq<char>,
    kind: Seq<char>,
    scope: Option<ScopeModel>,
    next: nat,
    depth: nat,
)
    requires
        is_plain_kind(kind),
        !starts_with(t, "if "@),
        reads_as_literal(t, scope),
        crate::semantics::eval(w, t, kind, scope, next, depth).result is Ok,
        reads_as_literal(
            serialized(crate::semantics::eval(w, t, kind, scope, next, depth).result->Ok_0),
            scope,
        ),
    ensures
        ({
            let v = crate::semantics::eval(w, t, kind, scope, next, depth).result->Ok_0;
            &&& crate::semantics::eval(w, serialized(v), kind, scope, next, depth) == done(v, next)
            &&& !(v matches ValueModel::Float(FloatModel::NaN)) ==> equals(v, v)
        }),
{
    law_literal_round_trip(w, t, kind, scope, next, depth);
}

/// A value in normal form that is not `NaN` is the same number as itself.
pub proof fn lemma_float_equals_itself(m: FloatModel)
    ensures
        !(m is NaN) ==> crate::float::float_order(m, m) == Some(crate::order::Order::Equal),
{
    if let FloatModel::Finite { digits, .. } = m {
        crate::order::lemma_text_order_same(digits);
    }
}

/// Shadowing: a name bound in a scope stands for that binding there, whatever the
/// scopes around it bind it to, and the scopes around it stay as they were.
pub proof fn law_shadowing(child: ScopeModel, name: Seq<char>, v: ValueModel)
    ensures
        lookup(bind(child, name, v), name) == v,
        bind(child, name, v).parent == child.parent,
        forall|other: Seq<char>| other != name ==> lookup(bind(child, name, v), other) == lookup(
            child,
            other,
        ),
{
    assert forall|other: Seq<char>| other != name implies lookup(bind(child, name, v), other)
        == lookup(child, other) by {
        assert(bind(child, name, v).vars.contains_key(other) == child.vars.contains_key(other));
    }
}

/// A function runs in the scope of its caller: in the scope of an invocation a
/// parameter stands for its argument, every other name stands for what it stands for
/// where the function was called, and nothing is imported.
pub proof fn law_callee_sees_caller(
    caller: ScopeModel,
    vars: Map<Seq<char>, ValueModel>,
    name: Seq<char>,
)
    ensures
        lookup(crate::semantics::frame(caller, vars), name) == if vars.contains_key(name) {
            vars[name]
        } else {
            lookup(caller, name)
        },
        crate::environment::resolve_import(crate::semantics::frame(caller, vars), name) is None,
{
}

/// Whether the statement of `f` at `index` is a `Do` with both of its nouns.
pub open spec fn is_do(f: FunctionModel, index: nat) -> bool {
    &&& index < f.lines.len()
    &&& index <= usize::MAX
    &&& f.lines[index as int].verb == Verb::Do
    &&& f.lines[index as int].nouns.len() >= 2
}

/// A `Do` whose condition does not hold goes on with the next statement and leaves the
/// scope as it is.
pub proof fn law_do_falls_through(
    w: World,
    f: FunctionModel,
    index: nat,
    scope: ScopeModel,
    next: nat,
    depth: nat,
)
    requires
        is_do(f, index),
        taken(w, f.lines[index as int].nouns[1], scope, next, depth).result == Ok::<
            bool,
            HaltModel,
        >(false),
    ensures
        advance(w, f, index, scope, next, depth).result == Ok::<Progress, HaltModel>(
            Progress::Next { index: index + 1, scope },
        ),
{
    reveal(advance);
}

/// A `Mark` binds its name to its own index, in the place of what the name was bound
/// to, and goes on with the next statement.
pub proof fn law_mark_records(
    w: World,
    f: FunctionModel,
    index: nat,
    scope: ScopeModel,
    next: nat,
    depth: nat,
)
    requires
        index < f.lines.len(),
        index <= i32::MAX,
        f.lines[index as int].verb == Verb::Mark,
        f.lines[index as int].nouns.len() >= 1,
    ensures
        advance(w, f, index, scope, next, depth) == done(
            Progress::Next {
                index: index + 1,
                scope: bind(scope, f.lines[index as int].nouns[0], ValueModel::Int(index as int)),
            },
            next,
        ),
        bind(scope, f.lines[index as int].nouns[0], ValueModel::Int(index as int)).vars[f.lines[index as int].nouns[0]]
            == ValueModel::Int(index as int),
{
    reveal(advance);
}

/// A `Do` to `~name` whose condition holds goes on with exactly the statement whose
/// index the scope binds `name` to, as a `Mark` of that name has recorded it; where
/// the scope binds `name` to no integer, it fails with `RuntimeError`.
pub proof fn law_do_jumps_to_mark(
    w: World,
    f: FunctionModel,
    index: nat,
    scope: ScopeModel,
    next: nat,
    depth: nat,
    name: Seq<char>,
)
    requires
        is_do(f, index),
        f.lines[index as int].nouns[0] == seq!['~'] + name,
        taken(w, f.lines[index as int].nouns[1], scope, next, depth).result == Ok::<
            bool,
            HaltModel,
        >(true),
    ensures
        ({
            let a = advance(w, f, index, scope, next, depth).result;
            if scope.vars.contains_key(name) && scope.vars[name] is Int {
                let to = scope.vars[name]->Int_0;
                &&& a == Ok::<Progress, HaltModel>(
                    Progress::Next { index: within(to, f.lines.len()), scope },
                )
                &&& 0 <= to <= f.lines.len() ==> within(to, f.lines.len()) == to
            } else {
                a == Err::<Progress, HaltModel>(
                    located(
                        failed(ErrorKind::RuntimeError, f.lines[index as int].nouns[0]),
                        index as usize,
                    ),
                )
            }
        }),
{
    reveal(advance);
    let target = f.lines[index as int].nouns[0];
    assert(target.skip(1) == name);
    assert(target[0] == '~');
}

/// A `Mark` executed again records its new index: after a `Mark` of `name` at `first`
/// and one at `second`, a `Do` to `~name` goes on with the statement at `second`.
pub proof fn law_mark_again(scope: ScopeModel, name: Seq<char>, first: int, second: int)
    ensures
        bind(bind(scope, name, ValueModel::Int(first)), name, ValueModel::Int(second)).vars[name]
            == ValueModel::Int(second),
        bind(bind(scope, name, ValueModel::Int(first)), name, ValueModel::Int(second)) == bind(
            scope,
            name,
            ValueModel::Int(second),
        ),
{
    let once = bind(scope, name, ValueModel::Int(first));
    assert(once.vars.insert(name, ValueModel::Int(second)) =~= scope.vars.insert(
        name,
        ValueModel::Int(second),
    ));
}

} // verus!
