//! The interpreter of lines of arithmetic.
//!
//! An expression is a row of values and operations, applied from left to right without
//! precedence. Arithmetic on integers, characters and strings is done here. Arithmetic
//! on two floats is that of the machine and is not done here: the results of the float
//! operations met so far are handed in, and a run that needs one more stops with the
//! operation that it needs.

use crate::float::{Float, FloatModel};
use crate::parser_core::ast::{AST_type, StatementTokens, AST};
use crate::parser_core::cast::CastTo;
use crate::parser_core::tokenized::{token_models, Token, TokenModel, Verb};
use crate::parser_core::value::{NounModel, Value};
use crate::text::append_str;
use crate::text::text_of;
use vstd::prelude::*;

verus! {

/// A variable and its value.
#[derive(Debug)]
pub struct Variable {
    pub name: String,
    pub value: Value,
}

/// The model of a variable.
pub struct VariableModel {
    pub name: Seq<char>,
    pub value: NounModel,
}

impl View for Variable {
    type V = VariableModel;

    open spec fn view(&self) -> VariableModel {
        VariableModel { name: self.name@, value: self.value@ }
    }
}

/// The models of a sequence of variables.
pub open spec fn variables(vars: Seq<Variable>) -> Seq<VariableModel> {
    vars.map_values(|v: Variable| v@)
}

/// The index of the first variable of the name `name`, or the number of variables.
pub open spec fn place(vars: Seq<VariableModel>, name: Seq<char>) -> int
    decreases vars.len(),
{
    if vars.len() == 0 || vars[0].name == name {
        0
    } else {
        1 + place(vars.drop_first(), name)
    }
}

/// The value of the variable `name`: `Undefined` where there is none.
pub open spec fn value_of(vars: Seq<VariableModel>, name: Seq<char>) -> NounModel {
    if 0 <= place(vars, name) < vars.len() {
        vars[place(vars, name)].value
    } else {
        NounModel::Undefined
    }
}

/// The variables after `name` has got the value `v`: in its place where it had one,
/// at the end otherwise.
pub open spec fn assigned(vars: Seq<VariableModel>, name: Seq<char>, v: NounModel) -> Seq<
    VariableModel,
> {
    if 0 <= place(vars, name) < vars.len() {
        vars.update(place(vars, name), VariableModel { name, value: v })
    } else {
        vars.push(VariableModel { name, value: v })
    }
}

/// What a token value stands for: the value of the variable that it names, or itself.
pub open spec fn resolved(vars: Seq<VariableModel>, v: NounModel) -> NounModel {
    match v {
        NounModel::VarName(name) => value_of(vars, name),
        _ => v,
    }
}

/// `v` cast to the kind of `like`: `Undefined` where it cannot be of that kind.
pub open spec fn cast_like(v: NounModel, like: NounModel) -> NounModel {
    let cast = match like {
        NounModel::Int(_) => <Value as CastTo<i32>>::cast(v),
        NounModel::Float(_) => <Value as CastTo<Float>>::cast(v),
        NounModel::Str(_) => <Value as CastTo<String>>::cast(v),
        NounModel::Char(_) => <Value as CastTo<char>>::cast(v),
        _ => <Value as CastTo<()>>::cast(v),
    };
    match cast {
        Some(c) => c,
        None => NounModel::Undefined,
    }
}

/// The result of the operation `opp` on the integers `a` and `b`, where it is a
/// 32-bit integer.
pub open spec fn int_result(opp: Verb, a: int, b: int) -> Option<int> {
    let r = match opp {
        Verb::Add => Some(a + b),
        Verb::Sub => Some(a - b),
        Verb::Mult => Some(a * b),
        Verb::Div => if b == 0 {
            None
        } else if (a < 0) == (b < 0) {
            Some((if a < 0 { -a } else { a }) / (if b < 0 { -b } else { b }))
        } else {
            Some(-((if a < 0 { -a } else { a }) / (if b < 0 { -b } else { b })))
        },
        _ => None,
    };
    match r {
        Some(n) => if i32::MIN <= n <= i32::MAX {
            Some(n)
        } else {
            None
        },
        None => None,
    }
}

/// An operation on two floats, for the machine to do.
#[derive(Debug)]
pub struct Arithmetic {
    pub opp: Verb,
    pub left: Float,
    pub right: Float,
}

/// The model of an operation on two floats.
pub struct ArithmeticModel {
    pub opp: Verb,
    pub left: FloatModel,
    pub right: FloatModel,
}

impl View for Arithmetic {
    type V = ArithmeticModel;

    open spec fn view(&self) -> ArithmeticModel {
        ArithmeticModel { opp: self.opp, left: self.left@, right: self.right@ }
    }
}

/// What an arithmetic operation on two values gives: a value, or the operation on two
/// floats that the machine has to do.
pub enum Combined {
    Value(NounModel),
    Machine(ArithmeticModel),
}

/// What the arithmetic operation `opp` gives on `a` and `b`.
///
/// Two integers give the integer result, and two characters that of their numbers;
/// two strings give the one after the other under `Add`. Two floats are left to the
/// machine. Everything else, and every result that is no 32-bit integer, is
/// `Undefined`.
pub open spec fn combine(opp: Verb, a: NounModel, b: NounModel) -> Combined {
    match (a, b) {
        (NounModel::Int(x), NounModel::Int(y)) => Combined::Value(
            match int_result(opp, x, y) {
                Some(n) => NounModel::Int(n),
                None => NounModel::Undefined,
            },
        ),
        (NounModel::Float(x), NounModel::Float(y)) => Combined::Machine(
            ArithmeticModel { opp, left: x, right: y },
        ),
        (NounModel::Str(x), NounModel::Str(y)) => Combined::Value(
            if opp == Verb::Add {
                NounModel::Str(x + y)
            } else {
                NounModel::Undefined
            },
        ),
        (NounModel::Char(x), NounModel::Char(y)) => Combined::Value(
            match int_result(opp, x as int, y as int) {
                Some(n) => NounModel::Int(n),
                None => NounModel::Undefined,
            },
        ),
        _ => Combined::Value(NounModel::Undefined),
    }
}

/// Whether `opp` is one of the four arithmetic operations.
pub open spec fn is_arithmetic(opp: Verb) -> bool {
    opp == Verb::Add || opp == Verb::Sub || opp == Verb::Mult || opp == Verb::Div
}

/// What an evaluation gives: a value, or the operation that it needs the result of,
/// and the number of results used up to then.
pub struct Outcome {
    pub result: Result<NounModel, ArithmeticModel>,
    pub next: nat,
}

/// The value of the tokens from `at` on, where `a` is the value so far and `opp` the
/// last operation met; `answers` holds the results of the float operations, of which
/// `next` are used up.
///
/// The first value is taken as it is. Every later value is combined with the value so
/// far: by arithmetic, after a cast to the kind of the value so far; under no
/// operation it takes its place; under the equals sign it takes its place where the
/// value so far names a variable, and `Undefined` does otherwise.
pub open spec fn fold(
    tokens: Seq<TokenModel>,
    at: int,
    a: NounModel,
    opp: Verb,
    vars: Seq<VariableModel>,
    answers: Seq<FloatModel>,
    next: nat,
) -> Outcome
    decreases tokens.len() - at,
{
    if at < 0 || at >= tokens.len() {
        Outcome { result: Ok(a), next }
    } else {
        match tokens[at] {
            TokenModel::Verb(v) => fold(tokens, at + 1, a, v, vars, answers, next),
            TokenModel::Noun(val) => {
                let b = resolved(vars, val);
                if a is Undefined {
                    fold(tokens, at + 1, b, opp, vars, answers, next)
                } else if is_arithmetic(opp) {
                    match combine(opp, a, cast_like(b, a)) {
                        Combined::Value(v) => fold(tokens, at + 1, v, opp, vars, answers, next),
                        Combined::Machine(m) => if next < answers.len() {
                            fold(
                                tokens,
                                at + 1,
                                NounModel::Float(answers[next as int]),
                                opp,
                                vars,
                                answers,
                                next + 1,
                            )
                        } else {
                            Outcome { result: Err(m), next }
                        },
                    }
                } else if opp == Verb::Nothing {
                    fold(tokens, at + 1, b, opp, vars, answers, next)
                } else {
                    fold(
                        tokens,
                        at + 1,
                        if a is VarName {
                            b
                        } else {
                            NounModel::Undefined
                        },
                        opp,
                        vars,
                        answers,
                        next,
                    )
                }
            },
        }
    }
}

/// The value of an expression.
pub open spec fn expression_value(
    tokens: Seq<TokenModel>,
    vars: Seq<VariableModel>,
    answers: Seq<FloatModel>,
    next: nat,
) -> Outcome {
    fold(tokens, 0, NounModel::Undefined, Verb::Nothing, vars, answers, next)
}

/// Whether every statement that binds a variable names the variable.
pub open spec fn well_named(statements: Seq<StatementTokens>) -> bool {
    forall|i: int|
        0 <= i < statements.len() && (#[trigger] statements[i]).statement_type == AST_type::Assign
            ==> statements[i].a is VarName
}

/// The result of the statements from `at` on: that of the first `Return`, and
/// `Undefined` where there is none.
pub open spec fn run_statements(
    statements: Seq<StatementTokens>,
    at: int,
    vars: Seq<VariableModel>,
    answers: Seq<FloatModel>,
    next: nat,
) -> Outcome
    decreases statements.len() - at,
{
    if at < 0 || at >= statements.len() {
        Outcome { result: Ok(NounModel::Undefined), next }
    } else {
        let v = expression_value(statements[at].b, vars, answers, next);
        match statements[at].statement_type {
            AST_type::Return => v,
            AST_type::Assign => match v.result {
                Err(m) => v,
                Ok(value) => run_statements(
                    statements,
                    at + 1,
                    assigned(vars, statements[at].a->VarName_0, value),
                    answers,
                    v.next,
                ),
            },
        }
    }
}

/// The variables as the statements from `at` on leave them: as they are at the first
/// `Return`, at the end, or where a float operation has no result.
pub open spec fn variables_after(
    statements: Seq<StatementTokens>,
    at: int,
    vars: Seq<VariableModel>,
    answers: Seq<FloatModel>,
    next: nat,
) -> Seq<VariableModel>
    decreases statements.len() - at,
{
    if at < 0 || at >= statements.len() {
        vars
    } else {
        let v = expression_value(statements[at].b, vars, answers, next);
        match statements[at].statement_type {
            AST_type::Return => vars,
            AST_type::Assign => match v.result {
                Err(m) => vars,
                Ok(value) => variables_after(
                    statements,
                    at + 1,
                    assigned(vars, statements[at].a->VarName_0, value),
                    answers,
                    v.next,
                ),
            },
        }
    }
}

/// The models of a sequence of floats.
pub open spec fn float_models(answers: Seq<Float>) -> Seq<FloatModel> {
    answers.map_values(|f: Float| f@)
}

/// The result of the operation `opp` on the integers `a` and `b`.
fn int_arithmetic(opp: Verb, a: i32, b: i32) -> (r: Value)
    ensures
        r@ == match int_result(opp, a as int, b as int) {
            Some(n) => NounModel::Int(n),
            None => NounModel::Undefined,
        },
{
    let x = a as i64;
    let y = b as i64;
    let wide: i64 = match opp {
        Verb::Add => x + y,
        Verb::Sub => x - y,
        Verb::Mult => {
            assert(-0x8000_0000 * 0x8000_0000 <= x * y <= 0x8000_0000 * 0x8000_0000)
                by (nonlinear_arith)
                requires
                    -0x8000_0000 <= x <= 0x8000_0000,
                    -0x8000_0000 <= y <= 0x8000_0000,
            ;
            x * y
        },
        Verb::Div => {
            if y == 0 {
                return Value::Undefined;
            }
            let size_x: i64 = if x < 0 {
                -x
            } else {
                x
            };
            let size_y: i64 = if y < 0 {
                -y
            } else {
                y
            };
            let q = size_x / size_y;
            if (x < 0) == (y < 0) {
                q
            } else {
                -q
            }
        },
        _ => {
            return Value::Undefined;
        },
    };
    if wide < i32::MIN as i64 || wide > i32::MAX as i64 {
        Value::Undefined
    } else {
        Value::Int(wide as i32)
    }
}

/// The number of a character as a 32-bit integer.
fn code_of(c: char) -> (n: i32)
    ensures
        n == c as int,
{
    (c as u32) as i32
}

/// What an arithmetic operation on two values gives.
pub enum Arithmetical {
    Value(Value),
    Machine(Arithmetic),
}

/// What the arithmetic operation `opp` gives on `a` and `b`.
pub fn combine_values(opp: Verb, a: Value, b: Value) -> (r: Arithmetical)
    ensures
        match (r, combine(opp, a@, b@)) {
            (Arithmetical::Value(v), Combined::Value(m)) => v@ == m,
            (Arithmetical::Machine(v), Combined::Machine(m)) => v@ == m,
            _ => false,
        },
{
    match (a, b) {
        (Value::Int(x), Value::Int(y)) => Arithmetical::Value(int_arithmetic(opp, x, y)),
        (Value::Float(x), Value::Float(y)) => Arithmetical::Machine(
            Arithmetic { opp, left: x, right: y },
        ),
        (Value::Str(x), Value::Str(y)) => {
            if opp == Verb::Add {
                let mut joined = crate::text::chars_of(x.as_str());
                append_str(&mut joined, y.as_str());
                Arithmetical::Value(Value::Str(text_of(joined.as_slice())))
            } else {
                Arithmetical::Value(Value::Undefined)
            }
        },
        (Value::Char(x), Value::Char(y)) => Arithmetical::Value(
            int_arithmetic(opp, code_of(x), code_of(y)),
        ),
        _ => Arithmetical::Value(Value::Undefined),
    }
}

/// `value` cast to the kind of `like`.
pub fn cast_to_type(value: &Value, like: &Value) -> (r: Value)
    ensures
        r@ == cast_like(value@, like@),
{
    let cast = match like {
        Value::Int(_) => CastTo::<i32>::cast_to(value),
        Value::Float(_) => CastTo::<Float>::cast_to(value),
        Value::Str(_) => CastTo::<String>::cast_to(value),
        Value::Char(_) => CastTo::<char>::cast_to(value),
        _ => CastTo::<()>::cast_to(value),
    };
    match cast {
        Some(v) => v,
        None => Value::Undefined,
    }
}

/// The first index with these properties is the place of the variable.
pub proof fn lemma_place_is(vars: Seq<VariableModel>, name: Seq<char>, j: int)
    requires
        0 <= j <= vars.len(),
        forall|k: int| 0 <= k < j ==> vars[k].name != name,
        j < vars.len() ==> vars[j].name == name,
    ensures
        place(vars, name) == j,
    decreases vars.len(),
{
    if vars.len() == 0 || vars[0].name == name {
    } else {
        assert forall|k: int| 0 <= k < j - 1 implies vars.drop_first()[k].name != name by {
            assert(vars.drop_first()[k] == vars[k + 1]);
        }
        lemma_place_is(vars.drop_first(), name, j - 1);
    }
}

/// The index of the first variable of the name `name`, or the number of variables.
fn find(vars: &Vec<Variable>, name: &String) -> (j: usize)
    ensures
        j == place(variables(vars@), name@),
        j <= vars.len(),
{
    let mut j: usize = 0;
    while j < vars.len() && vars[j].name != *name
        invariant
            j <= vars.len(),
            forall|k: int| 0 <= k < j ==> variables(vars@)[k].name != name@,
        decreases vars.len() - j,
    {
        j += 1;
    }
    proof {
        lemma_place_is(variables(vars@), name@, j as int);
    }
    j
}

/// The value of the variable `name`: `Undefined` where there is none.
pub fn search(vars: &Vec<Variable>, name: &String) -> (r: Value)
    ensures
        r@ == value_of(variables(vars@), name@),
{
    let j = find(vars, name);
    if j < vars.len() {
        vars[j].value.clone()
    } else {
        Value::Undefined
    }
}

/// Gives the variable `name` the value `value`.
pub fn assign(vars: &mut Vec<Variable>, name: String, value: Value)
    ensures
        variables(final(vars)@) == assigned(variables(old(vars)@), name@, value@),
{
    let j = find(vars, &name);
    let variable = Variable { name, value };
    if j < vars.len() {
        vars.set(j, variable);
    } else {
        vars.push(variable);
    }
    assert(variables(vars@) =~= assigned(variables(old(vars)@), variable.name@, variable.value@));
}

/// A copy of the variables.
pub fn clone_variables(vars: &Vec<Variable>) -> (r: Vec<Variable>)
    ensures
        variables(r@) == variables(vars@),
{
    let mut r: Vec<Variable> = Vec::new();
    let mut i: usize = 0;
    while i < vars.len()
        invariant
            i <= vars.len(),
            variables(r@) == variables(vars@).take(i as int),
        decreases vars.len() - i,
    {
        let ghost before = r@;
        let v = Variable { name: vars[i].name.clone(), value: vars[i].value.clone() };
        r.push(v);
        i += 1;
        assert(variables(r@) =~= variables(before).push(v@));
        assert(variables(r@) =~= variables(vars@).take(i as int));
    }
    assert(variables(vars@).take(vars.len() as int) == variables(vars@));
    r
}

/// What the token value `val` stands for.
fn resolve(vars: &Vec<Variable>, val: &Value) -> (r: Value)
    ensures
        r@ == resolved(variables(vars@), val@),
{
    match val {
        Value::VarName(name) => search(vars, name),
        _ => val.clone(),
    }
}

/// Whether a result is the one that the outcome holds.
pub open spec fn is_result(r: Result<Value, Arithmetic>, o: Outcome) -> bool {
    match (r, o.result) {
        (Ok(v), Ok(m)) => v@ == m,
        (Err(v), Err(m)) => v@ == m,
        _ => false,
    }
}

/// The value of the expression `expression` among the variables `vars`, given the
/// results `answers` of the float operations, of which `used` are used up; or the
/// float operation that the evaluation needs the result of. With it, the number of
/// results used.
pub fn evaluate_tokens(vars: &Vec<Variable>, expression: &Vec<Token>, answers: &Vec<Float>, used: usize) -> (r:
    (Result<Value, Arithmetic>, usize))
    ensures
        r.1 == expression_value(
            token_models(expression@),
            variables(vars@),
            float_models(answers@),
            used as nat,
        ).next,
        is_result(
            r.0,
            expression_value(
                token_models(expression@),
                variables(vars@),
                float_models(answers@),
                used as nat,
            ),
        ),
{
    let ghost tokens = token_models(expression@);
    let ghost held = variables(vars@);
    let ghost given = float_models(answers@);
    let ghost goal = expression_value(tokens, held, given, used as nat);
    let mut a = Value::Undefined;
    let mut opp = Verb::Nothing;
    let mut next = used;
    let mut at: usize = 0;
    while at < expression.len()
        invariant
            at <= expression.len(),
            tokens == token_models(expression@),
            held == variables(vars@),
            given == float_models(answers@),
            goal == expression_value(tokens, held, given, used as nat),
            goal == fold(tokens, at as int, a@, opp, held, given, next as nat),
        decreases expression.len() - at,
    {
        assert(tokens[at as int] == expression@[at as int]@);
        match &expression[at] {
            Token::Verb(v) => {
                opp = *v;
            },
            Token::Noun(val) => {
                let b = resolve(vars, val);
                if matches!(a, Value::Undefined) {
                    a = b;
                } else if opp == Verb::Add || opp == Verb::Sub || opp == Verb::Mult || opp
                    == Verb::Div {
                    let cast = cast_to_type(&b, &a);
                    match combine_values(opp, a, cast) {
                        Arithmetical::Value(v) => {
                            a = v;
                        },
                        Arithmetical::Machine(m) => {
                            if next < answers.len() {
                                assert(given[next as int] == answers@[next as int]@);
                                a = Value::Float(answers[next].clone());
                                next = next + 1;
                            } else {
                                return (Err(m), next);
                            }
                        },
                    }
                } else if opp == Verb::Nothing {
                    a = b;
                } else {
                    a = if matches!(a, Value::VarName(_)) {
                        b
                    } else {
                        Value::Undefined
                    };
                }
            },
        }
        at += 1;
    }
    (Ok(a), next)
}

/// The interpreter of the statements of one text.
#[derive(Debug)]
pub struct Interpreter {
    pub ast: AST,
    pub env: Vec<Variable>,
}

impl Interpreter {
    /// The interpreter of the statements `ast`, with no variable yet.
    pub fn new(ast: AST) -> (r: Self)
        ensures
            r.ast == ast,
            r.env@.len() == 0,
    {
        Interpreter { ast, env: Vec::new() }
    }

    /// The value of the expression `expression`, given the results `answers` of the
    /// float operations met so far; or the float operation that the evaluation needs
    /// the result of.
    pub fn evaluate_expression(&self, expression: &Vec<Token>, answers: &Vec<Float>) -> (r: Result<
        Value,
        Arithmetic,
    >)
        ensures
            is_result(
                r,
                expression_value(
                    token_models(expression@),
                    variables(self.env@),
                    float_models(answers@),
                    0,
                ),
            ),
    {
        evaluate_tokens(&self.env, expression, answers, 0).0
    }

    /// Runs the statements: each `Set` gives its variable the value of its
    /// expression, and the first `Return` gives the result; `Undefined` where there is
    /// none. A run that needs the result of a float operation that `answers` does not
    /// hold stops with that operation and leaves the variables as they were.
    pub fn run(&mut self, answers: &Vec<Float>) -> (r: Result<Value, Arithmetic>)
        requires
            well_named(old(self).ast@),
        ensures
            final(self).ast == old(self).ast,
            is_result(
                r,
                run_statements(
                    old(self).ast@,
                    0,
                    variables(old(self).env@),
                    float_models(answers@),
                    0,
                ),
            ),
            r is Err ==> final(self).env == old(self).env,
            r is Ok ==> variables(final(self).env@) == variables_after(
                old(self).ast@,
                0,
                variables(old(self).env@),
                float_models(answers@),
                0,
            ),
    {
        let ghost statements = self.ast@;
        let ghost given = float_models(answers@);
        let ghost goal = run_statements(statements, 0, variables(self.env@), given, 0);
        let ghost left = variables_after(statements, 0, variables(self.env@), given, 0);
        let mut vars = clone_variables(&self.env);
        let mut used: usize = 0;
        let mut at: usize = 0;
        while at < self.ast.statements.len()
            invariant
                at <= self.ast.statements.len(),
                *self == *old(self),
                statements == self.ast@,
                statements.len() == self.ast.statements.len(),
                well_named(statements),
                given == float_models(answers@),
                goal == run_statements(
                    old(self).ast@,
                    0,
                    variables(old(self).env@),
                    float_models(answers@),
                    0,
                ),
                goal == run_statements(statements, at as int, variables(vars@), given, used as nat),
                left == variables_after(
                    old(self).ast@,
                    0,
                    variables(old(self).env@),
                    float_models(answers@),
                    0,
                ),
                left == variables_after(statements, at as int, variables(vars@), given, used as nat),
            decreases self.ast.statements.len() - at,
        {
            assert(statements[at as int] == self.ast.statements@[at as int]@);
            let (v, next) = evaluate_tokens(&vars, &self.ast.statements[at].b, answers, used);
            match self.ast.statements[at].statement_type {
                AST_type::Return => {
                    if v.is_ok() {
                        self.env = vars;
                    }
                    return v;
                },
                AST_type::Assign => match v {
                    Err(m) => {
                        return Err(m);
                    },
                    Ok(value) => {
                        let name = match &self.ast.statements[at].a {
                            Value::VarName(name) => name.clone(),
                            _ => String::new(),
                        };
                        assign(&mut vars, name, value);
                        used = next;
                    },
                },
            }
            at += 1;
        }
        self.env = vars;
        Ok(Value::Undefined)
    }
}

} // verus!
