//! The data of a running program: values, functions, statements and environments,
//! each with the mathematical model that the contracts of this library speak of.

use crate::float::{Float, FloatModel};
use crate::text::{clone_strings, texts};
use std::rc::Rc;
use vstd::prelude::*;

verus! {

/// What a statement does.
#[derive(Clone, Copy, Debug, PartialEq, Eq, Structural)]
pub enum Verb {
    /// The verb `Set`: binds a name to the value of an expression.
    Assign,
    /// Ends the invocation with the value of an expression.
    Return,
    /// Records the statement's own index under a name.
    Mark,
    /// Jumps to a marker where a condition holds.
    Do,
}

/// One statement: a verb and its operands, the nouns.
#[derive(Debug)]
pub struct Statement {
    pub verb: Verb,
    pub nouns: Vec<String>,
}

/// The model of a statement.
pub struct StatementModel {
    pub verb: Verb,
    pub nouns: Seq<Seq<char>>,
}

impl View for Statement {
    type V = StatementModel;

    open spec fn view(&self) -> StatementModel {
        StatementModel { verb: self.verb, nouns: texts(self.nouns@) }
    }
}

/// The models of a sequence of statements.
pub open spec fn statements(lines: Seq<Statement>) -> Seq<StatementModel> {
    lines.map_values(|l: Statement| l@)
}

/// A function: its statements and the names of its parameters.
#[derive(Debug)]
pub struct Function {
    pub lines: Vec<Statement>,
    pub params: Vec<String>,
}

/// The model of a function.
pub struct FunctionModel {
    pub lines: Seq<StatementModel>,
    pub params: Seq<Seq<char>>,
}

impl View for Function {
    type V = FunctionModel;

    open spec fn view(&self) -> FunctionModel {
        FunctionModel { lines: statements(self.lines@), params: texts(self.params@) }
    }
}

/// A name and the value bound to it.
#[derive(Debug)]
pub struct Binding {
    pub name: String,
    pub value: Value,
}

/// An alias and the path of the outside program imported under it.
#[derive(Debug)]
pub struct Import {
    pub alias: String,
    pub path: String,
}

/// A scope: its own bindings, the scope around it, and its own imports.
///
/// Where a name or an alias stands twice in its vector, the first entry counts.
#[derive(Debug)]
pub struct Environment {
    pub vars: Vec<Binding>,
    pub parent: Option<Rc<Environment>>,
    pub dependencies: Vec<Import>,
}

/// A runtime value.
#[derive(Debug)]
pub enum Value {
    Int(i32),
    Float(Float),
    Str(String),
    Bool(bool),
    List(Vec<Value>),
    FunctionRef(Function),
    EnvironmentRef(Rc<Environment>),
    /// What an evaluation gives that could not resolve a binding.
    Undefined,
    /// The explicit absence of a value.
    Null,
}

/// The model of a scope: a map from names to values, the scope around it, and a map
/// from aliases to paths.
pub struct ScopeModel {
    pub vars: Map<Seq<char>, ValueModel>,
    pub parent: Option<Box<ScopeModel>>,
    pub imports: Map<Seq<char>, Seq<char>>,
}

/// The model of a value.
pub enum ValueModel {
    Int(int),
    Float(FloatModel),
    Str(Seq<char>),
    Bool(bool),
    List(Seq<ValueModel>),
    FunctionRef(FunctionModel),
    EnvironmentRef(ScopeModel),
    Undefined,
    Null,
}

/// The map that a vector of bindings stands for.
pub open spec fn bindings_model(vars: Seq<Binding>) -> Map<Seq<char>, ValueModel>
    decreases vars, 0int,
{
    if vars.len() == 0 {
        Map::empty()
    } else {
        bindings_model(vars.drop_first()).insert(vars[0].name@, value_model(vars[0].value))
    }
}

/// The map that a vector of imports stands for.
pub open spec fn imports_model(imports: Seq<Import>) -> Map<Seq<char>, Seq<char>>
    decreases imports.len(),
{
    if imports.len() == 0 {
        Map::empty()
    } else {
        imports_model(imports.drop_first()).insert(imports[0].alias@, imports[0].path@)
    }
}

/// The models of a sequence of values.
pub open spec fn values_model(items: Seq<Value>) -> Seq<ValueModel>
    decreases items, 0int,
{
    if items.len() == 0 {
        Seq::empty()
    } else {
        values_model(items.drop_last()).push(value_model(items.last()))
    }
}

/// The model of an environment.
pub open spec fn scope_model(env: Environment) -> ScopeModel
    decreases env,
{
    ScopeModel {
        vars: bindings_model(env.vars@),
        parent: match env.parent {
            Some(p) => Some(Box::new(scope_model(*p))),
            None => None,
        },
        imports: imports_model(env.dependencies@),
    }
}

/// The model of a value.
pub open spec fn value_model(v: Value) -> ValueModel
    decreases v,
{
    match v {
        Value::Int(n) => ValueModel::Int(n as int),
        Value::Float(f) => ValueModel::Float(f@),
        Value::Str(s) => ValueModel::Str(s@),
        Value::Bool(b) => ValueModel::Bool(b),
        Value::List(items) => ValueModel::List(values_model(items@)),
        Value::FunctionRef(f) => ValueModel::FunctionRef(f@),
        Value::EnvironmentRef(e) => ValueModel::EnvironmentRef(scope_model(*e)),
        Value::Undefined => ValueModel::Undefined,
        Value::Null => ValueModel::Null,
    }
}

impl View for Value {
    type V = ValueModel;

    open spec fn view(&self) -> ValueModel {
        value_model(*self)
    }
}

impl View for Environment {
    type V = ScopeModel;

    open spec fn view(&self) -> ScopeModel {
        scope_model(*self)
    }
}

/// The models of values are as many as the values, and each is the model of its value.
pub proof fn lemma_values_model(items: Seq<Value>)
    ensures
        values_model(items).len() == items.len(),
        forall|i: int| 0 <= i < items.len() ==> values_model(items)[i] == #[trigger] items[i]@,
    decreases items.len(),
{
    if items.len() > 0 {
        lemma_values_model(items.drop_last());
        assert forall|i: int| 0 <= i < items.len() implies values_model(items)[i]
            == #[trigger] items[i]@ by {
            if i < items.len() - 1 {
                assert(items.drop_last()[i] == items[i]);
                assert(values_model(items.drop_last())[i] == items.drop_last()[i]@);
            }
        }
    }
}

/// The models of values with one more at the end are their models with its model at
/// the end.
pub proof fn lemma_values_model_push(items: Seq<Value>, v: Value)
    ensures
        values_model(items.push(v)) == values_model(items).push(v@),
{
    assert(items.push(v).drop_last() == items);
}

/// `Rc::clone` of std: one more pointer to the same environment.
#[verifier::external_body]
fn share(env: &Rc<Environment>) -> (r: Rc<Environment>)
    ensures
        r == *env,
{
    Rc::clone(env)
}

impl Clone for Statement {
    fn clone(&self) -> (r: Self)
        ensures
            r@ == self@,
    {
        Statement { verb: self.verb, nouns: clone_strings(&self.nouns) }
    }
}

impl Clone for Function {
    fn clone(&self) -> (r: Self)
        ensures
            r@ == self@,
    {
        let mut lines: Vec<Statement> = Vec::new();
        let mut i: usize = 0;
        while i < self.lines.len()
            invariant
                i <= self.lines.len(),
                statements(lines@) == statements(self.lines@).take(i as int),
            decreases self.lines.len() - i,
        {
            let ghost before = lines@;
            let line = self.lines[i].clone();
            lines.push(line);
            i += 1;
            assert(statements(lines@) =~= statements(before).push(line@));
            assert(statements(lines@) =~= statements(self.lines@).take(i as int));
        }
        assert(statements(self.lines@).take(self.lines.len() as int) == statements(self.lines@));
        Function { lines, params: clone_strings(&self.params) }
    }
}

/// A copy of a vector of values.
pub fn clone_values(items: &Vec<Value>) -> (r: Vec<Value>)
    ensures
        values_model(r@) == values_model(items@),
    decreases items,
{
    let mut copy: Vec<Value> = Vec::new();
    let mut i: usize = 0;
    while i < items.len()
        invariant
            i <= items.len(),
            values_model(copy@) == values_model(items@.take(i as int)),
        decreases items.len() - i,
    {
        let item = items[i].clone();
        proof {
            lemma_values_model_push(copy@, item);
            lemma_values_model_push(items@.take(i as int), items@[i as int]);
            assert(items@.take(i + 1) == items@.take(i as int).push(items@[i as int]));
        }
        copy.push(item);
        i += 1;
    }
    assert(items@.take(items.len() as int) == items@);
    copy
}

impl Clone for Value {
    fn clone(&self) -> (r: Self)
        ensures
            r@ == self@,
        decreases self,
    {
        match self {
            Value::Int(n) => Value::Int(*n),
            Value::Float(f) => Value::Float(f.clone()),
            Value::Str(s) => Value::Str(s.clone()),
            Value::Bool(b) => Value::Bool(*b),
            Value::List(items) => Value::List(clone_values(items)),
            Value::FunctionRef(f) => Value::FunctionRef(f.clone()),
            Value::EnvironmentRef(e) => Value::EnvironmentRef(share(e)),
            Value::Undefined => Value::Undefined,
            Value::Null => Value::Null,
        }
    }
}

/// Bindings with the same names and values, one by one, stand for the same map.
pub proof fn lemma_same_bindings(a: Seq<Binding>, b: Seq<Binding>)
    requires
        a.len() == b.len(),
        forall|i: int| 0 <= i < a.len() ==> a[i].name@ == b[i].name@ && a[i].value@ == b[i].value@,
    ensures
        bindings_model(a) == bindings_model(b),
    decreases a.len(),
{
    if a.len() > 0 {
        assert forall|i: int| 0 <= i < a.drop_first().len() implies a.drop_first()[i].name@
            == b.drop_first()[i].name@ && a.drop_first()[i].value@ == b.drop_first()[i].value@ by {
            assert(a.drop_first()[i] == a[i + 1]);
            assert(b.drop_first()[i] == b[i + 1]);
        }
        lemma_same_bindings(a.drop_first(), b.drop_first());
        assert(a[0].value@ == b[0].value@);
    }
}

/// Imports with the same aliases and paths, one by one, stand for the same map.
pub proof fn lemma_same_imports(a: Seq<Import>, b: Seq<Import>)
    requires
        a.len() == b.len(),
        forall|i: int| 0 <= i < a.len() ==> a[i].alias@ == b[i].alias@ && a[i].path@ == b[i].path@,
    ensures
        imports_model(a) == imports_model(b),
    decreases a.len(),
{
    if a.len() > 0 {
        assert forall|i: int| 0 <= i < a.drop_first().len() implies a.drop_first()[i].alias@
            == b.drop_first()[i].alias@ && a.drop_first()[i].path@ == b.drop_first()[i].path@ by {
            assert(a.drop_first()[i] == a[i + 1]);
            assert(b.drop_first()[i] == b[i + 1]);
        }
        lemma_same_imports(a.drop_first(), b.drop_first());
    }
}

impl Clone for Environment {
    /// A copy of the scope's own bindings and imports, inside the same scope.
    fn clone(&self) -> (r: Self)
        ensures
            r@ == self@,
    {
        let mut vars: Vec<Binding> = Vec::new();
        let mut i: usize = 0;
        while i < self.vars.len()
            invariant
                i <= self.vars.len(),
                vars.len() == i,
                forall|k: int|
                    0 <= k < i ==> (#[trigger] vars@[k]).name@ == self.vars@[k].name@ && vars@[k].value@
                        == self.vars@[k].value@,
            decreases self.vars.len() - i,
        {
            vars.push(Binding { name: self.vars[i].name.clone(), value: self.vars[i].value.clone() });
            i += 1;
        }
        let mut dependencies: Vec<Import> = Vec::new();
        let mut j: usize = 0;
        while j < self.dependencies.len()
            invariant
                j <= self.dependencies.len(),
                dependencies.len() == j,
                forall|k: int|
                    0 <= k < j ==> (#[trigger] dependencies@[k]).alias@
                        == self.dependencies@[k].alias@ && dependencies@[k].path@
                        == self.dependencies@[k].path@,
            decreases self.dependencies.len() - j,
        {
            dependencies.push(
                Import {
                    alias: self.dependencies[j].alias.clone(),
                    path: self.dependencies[j].path.clone(),
                },
            );
            j += 1;
        }
        proof {
            lemma_same_bindings(vars@, self.vars@);
            lemma_same_imports(dependencies@, self.dependencies@);
        }
        let parent = match &self.parent {
            Some(p) => Some(share(p)),
            None => None,
        };
        Environment { vars, parent, dependencies }
    }
}

} // verus!
