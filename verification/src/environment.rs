//! Scopes: looking a name up through the chain of scopes, binding a name in the
//! innermost one, and resolving an import there.

use crate::value::{
    bindings_model, imports_model, Binding, Environment, Import, ScopeModel, Value, ValueModel,
};
use std::rc::Rc;
use vstd::prelude::*;

verus! {

/// The value that `name` stands for in `scope`: that of the innermost scope of the
/// chain that binds it, and `Undefined` where none does.
pub open spec fn lookup(scope: ScopeModel, name: Seq<char>) -> ValueModel
    decreases scope,
{
    if scope.vars.contains_key(name) {
        scope.vars[name]
    } else {
        match scope.parent {
            Some(p) => lookup(*p, name),
            None => ValueModel::Undefined,
        }
    }
}

/// `scope` with `name` bound to `v` in the scope's own map.
pub open spec fn bind(scope: ScopeModel, name: Seq<char>, v: ValueModel) -> ScopeModel {
    ScopeModel { vars: scope.vars.insert(name, v), parent: scope.parent, imports: scope.imports }
}

/// `scope` with the outside program at `path` imported under `alias`.
pub open spec fn import(scope: ScopeModel, alias: Seq<char>, path: Seq<char>) -> ScopeModel {
    ScopeModel {
        vars: scope.vars,
        parent: scope.parent,
        imports: scope.imports.insert(alias, path),
    }
}

/// The path imported under `alias` in the scope's own table; the scopes around it are
/// not asked.
pub open spec fn resolve_import(scope: ScopeModel, alias: Seq<char>) -> Option<Seq<char>> {
    if scope.imports.contains_key(alias) {
        Some(scope.imports[alias])
    } else {
        None
    }
}

/// The scope with nothing bound and nothing imported, inside `parent`.
pub open spec fn fresh_scope(parent: Option<ScopeModel>) -> ScopeModel {
    ScopeModel {
        vars: Map::empty(),
        parent: match parent {
            Some(p) => Some(Box::new(p)),
            None => None,
        },
        imports: Map::empty(),
    }
}

/// The index of the first binding of `name` in `vars`, or the length of `vars`.
pub open spec fn first_binding(vars: Seq<Binding>, name: Seq<char>) -> int
    decreases vars.len(),
{
    if vars.len() == 0 || vars[0].name@ == name {
        0
    } else {
        1 + first_binding(vars.drop_first(), name)
    }
}

/// The index of the first import under `alias` in `imports`, or the length of `imports`.
pub open spec fn first_import(imports: Seq<Import>, alias: Seq<char>) -> int
    decreases imports.len(),
{
    if imports.len() == 0 || imports[0].alias@ == alias {
        0
    } else {
        1 + first_import(imports.drop_first(), alias)
    }
}

/// The first binding of a name is in the map that the bindings stand for, and a name
/// without a binding is not.
pub proof fn lemma_first_binding(vars: Seq<Binding>, name: Seq<char>)
    ensures
        0 <= first_binding(vars, name) <= vars.len(),
        first_binding(vars, name) < vars.len() ==> {
            &&& vars[first_binding(vars, name)].name@ == name
            &&& bindings_model(vars).contains_key(name)
            &&& bindings_model(vars)[name] == vars[first_binding(vars, name)].value@
        },
        first_binding(vars, name) == vars.len() ==> !bindings_model(vars).contains_key(name),
    decreases vars.len(),
{
    if vars.len() == 0 || vars[0].name@ == name {
    } else {
        lemma_first_binding(vars.drop_first(), name);
    }
}

/// The first index with these properties is that of the first binding.
pub proof fn lemma_first_binding_is(vars: Seq<Binding>, name: Seq<char>, j: int)
    requires
        0 <= j <= vars.len(),
        forall|k: int| 0 <= k < j ==> vars[k].name@ != name,
        j < vars.len() ==> vars[j].name@ == name,
    ensures
        first_binding(vars, name) == j,
    decreases vars.len(),
{
    if vars.len() == 0 || vars[0].name@ == name {
    } else {
        assert forall|k: int| 0 <= k < j - 1 implies vars.drop_first()[k].name@ != name by {
            assert(vars.drop_first()[k] == vars[k + 1]);
        }
        lemma_first_binding_is(vars.drop_first(), name, j - 1);
    }
}

/// The first import under an alias is in the map that the imports stand for, and an
/// alias without an import is not.
pub proof fn lemma_first_import(imports: Seq<Import>, alias: Seq<char>)
    ensures
        0 <= first_import(imports, alias) <= imports.len(),
        first_import(imports, alias) < imports.len() ==> {
            &&& imports[first_import(imports, alias)].alias@ == alias
            &&& imports_model(imports).contains_key(alias)
            &&& imports_model(imports)[alias] == imports[first_import(imports, alias)].path@
        },
        first_import(imports, alias) == imports.len() ==> !imports_model(imports).contains_key(
            alias,
        ),
    decreases imports.len(),
{
    if imports.len() == 0 || imports[0].alias@ == alias {
    } else {
        lemma_first_import(imports.drop_first(), alias);
    }
}

/// The first index with these properties is that of the first import.
pub proof fn lemma_first_import_is(imports: Seq<Import>, alias: Seq<char>, j: int)
    requires
        0 <= j <= imports.len(),
        forall|k: int| 0 <= k < j ==> imports[k].alias@ != alias,
        j < imports.len() ==> imports[j].alias@ == alias,
    ensures
        first_import(imports, alias) == j,
    decreases imports.len(),
{
    if imports.len() == 0 || imports[0].alias@ == alias {
    } else {
        assert forall|k: int| 0 <= k < j - 1 implies imports.drop_first()[k].alias@ != alias by {
            assert(imports.drop_first()[k] == imports[k + 1]);
        }
        lemma_first_import_is(imports.drop_first(), alias, j - 1);
    }
}

/// A new value in the place of the first binding of a name binds the name to it.
pub proof fn lemma_rebind(vars: Seq<Binding>, j: int, b: Binding)
    requires
        0 <= j < vars.len(),
        first_binding(vars, b.name@) == j,
    ensures
        bindings_model(vars.update(j, b)) == bindings_model(vars).insert(b.name@, b.value@),
    decreases vars.len(),
{
    if j == 0 {
        lemma_first_binding(vars, b.name@);
        assert(vars.update(0, b).drop_first() == vars.drop_first());
        assert(bindings_model(vars.update(j, b)) =~= bindings_model(vars).insert(
            b.name@,
            b.value@,
        ));
    } else {
        lemma_rebind(vars.drop_first(), j - 1, b);
        let changed = vars.update(j, b);
        assert(changed.drop_first() == vars.drop_first().update(j - 1, b));
        assert(changed[0] == vars[0]);
        assert(bindings_model(changed) == bindings_model(changed.drop_first()).insert(
            vars[0].name@,
            vars[0].value@,
        ));
        assert(bindings_model(changed) =~= bindings_model(vars).insert(b.name@, b.value@));
    }
}

/// A binding of a new name at the end binds the name.
pub proof fn lemma_bind_new(vars: Seq<Binding>, b: Binding)
    requires
        first_binding(vars, b.name@) == vars.len(),
    ensures
        bindings_model(vars.push(b)) == bindings_model(vars).insert(b.name@, b.value@),
    decreases vars.len(),
{
    if vars.len() == 0 {
        assert(vars.push(b).drop_first() == vars);
        assert(bindings_model(vars.push(b)) =~= bindings_model(vars).insert(b.name@, b.value@));
    } else {
        lemma_bind_new(vars.drop_first(), b);
        assert(vars.push(b).drop_first() == vars.drop_first().push(b));
        assert(bindings_model(vars.push(b)) =~= bindings_model(vars).insert(b.name@, b.value@));
    }
}

/// A new path in the place of the first import under an alias imports it under the alias.
pub proof fn lemma_reimport(imports: Seq<Import>, j: int, entry: Import)
    requires
        0 <= j < imports.len(),
        first_import(imports, entry.alias@) == j,
    ensures
        imports_model(imports.update(j, entry)) == imports_model(imports).insert(
            entry.alias@,
            entry.path@,
        ),
    decreases imports.len(),
{
    if j == 0 {
        lemma_first_import(imports, entry.alias@);
        assert(imports.update(0, entry).drop_first() == imports.drop_first());
        assert(imports_model(imports.update(j, entry)) =~= imports_model(imports).insert(
            entry.alias@,
            entry.path@,
        ));
    } else {
        lemma_reimport(imports.drop_first(), j - 1, entry);
        let changed = imports.update(j, entry);
        assert(changed.drop_first() == imports.drop_first().update(j - 1, entry));
        assert(changed[0] == imports[0]);
        assert(imports_model(changed) == imports_model(changed.drop_first()).insert(
            imports[0].alias@,
            imports[0].path@,
        ));
        assert(imports_model(changed) =~= imports_model(imports).insert(
            entry.alias@,
            entry.path@,
        ));
    }
}

/// An import under a new alias at the end imports under the alias.
pub proof fn lemma_import_new(imports: Seq<Import>, entry: Import)
    requires
        first_import(imports, entry.alias@) == imports.len(),
    ensures
        imports_model(imports.push(entry)) == imports_model(imports).insert(
            entry.alias@,
            entry.path@,
        ),
    decreases imports.len(),
{
    if imports.len() == 0 {
        assert(imports.push(entry).drop_first() == imports);
        assert(imports_model(imports.push(entry)) =~= imports_model(imports).insert(
            entry.alias@,
            entry.path@,
        ));
    } else {
        lemma_import_new(imports.drop_first(), entry);
        assert(imports.push(entry).drop_first() == imports.drop_first().push(entry));
        assert(imports_model(imports.push(entry)) =~= imports_model(imports).insert(
            entry.alias@,
            entry.path@,
        ));
    }
}

/// The model of the scope around a scope, if there is one.
pub open spec fn parent_model(parent: Option<Rc<Environment>>) -> Option<ScopeModel> {
    match parent {
        Some(p) => Some(p@),
        None => None,
    }
}

impl Environment {
    /// A scope with nothing bound and nothing imported, inside `parent`.
    pub fn new(parent: Option<Rc<Environment>>) -> (r: Self)
        ensures
            r@ == fresh_scope(parent_model(parent)),
    {
        let r = Environment { vars: Vec::new(), parent, dependencies: Vec::new() };
        assert(bindings_model(r.vars@) == Map::<Seq<char>, ValueModel>::empty());
        assert(imports_model(r.dependencies@) == Map::<Seq<char>, Seq<char>>::empty());
        r
    }

    /// The index of the first binding of `name` among the scope's own, or their number.
    fn find(&self, name: &String) -> (j: usize)
        ensures
            j == first_binding(self.vars@, name@),
            j <= self.vars.len(),
    {
        let mut j: usize = 0;
        while j < self.vars.len() && self.vars[j].name != *name
            invariant
                j <= self.vars.len(),
                forall|k: int| 0 <= k < j ==> self.vars@[k].name@ != name@,
            decreases self.vars.len() - j,
        {
            j += 1;
        }
        proof {
            lemma_first_binding_is(self.vars@, name@, j as int);
        }
        j
    }

    /// The value that the scope itself binds `name` to, if it binds it.
    pub fn local(&self, name: &String) -> (r: Option<&Value>)
        ensures
            match r {
                Some(v) => self@.vars.contains_key(name@) && v@ == self@.vars[name@],
                None => !self@.vars.contains_key(name@),
            },
    {
        let j = self.find(name);
        proof {
            lemma_first_binding(self.vars@, name@);
        }
        if j < self.vars.len() {
            Some(&self.vars[j].value)
        } else {
            None
        }
    }

    /// The value that `name` stands for: that of the innermost scope of the chain
    /// that binds it, and `Undefined` where none does.
    pub fn search_for_var(&self, name: String) -> (r: Value)
        ensures
            r@ == lookup(self@, name@),
    {
        self.search(&name)
    }

    /// The value that `name` stands for.
    pub fn search(&self, name: &String) -> (r: Value)
        ensures
            r@ == lookup(self@, name@),
        decreases self,
    {
        match self.local(name) {
            Some(v) => v.clone(),
            None => match &self.parent {
                Some(p) => p.search(name),
                None => Value::Undefined,
            },
        }
    }

    /// Binds `name` to `value` in this scope, in the place of what it was bound to here.
    pub fn bind(&mut self, name: String, value: Value)
        ensures
            final(self)@ == bind(old(self)@, name@, value@),
    {
        let j = self.find(&name);
        let b = Binding { name, value };
        proof {
            if j < self.vars.len() {
                lemma_rebind(self.vars@, j as int, b);
            } else {
                lemma_bind_new(self.vars@, b);
            }
        }
        if j < self.vars.len() {
            self.vars.set(j, b);
        } else {
            self.vars.push(b);
        }
    }

    /// Imports the outside program at `path` under `alias`, in this scope.
    pub fn import(&mut self, alias: String, path: String)
        ensures
            final(self)@ == import(old(self)@, alias@, path@),
    {
        let mut j: usize = 0;
        while j < self.dependencies.len() && self.dependencies[j].alias != alias
            invariant
                j <= self.dependencies.len(),
                forall|k: int| 0 <= k < j ==> self.dependencies@[k].alias@ != alias@,
            decreases self.dependencies.len() - j,
        {
            j += 1;
        }
        let entry = Import { alias, path };
        proof {
            lemma_first_import_is(self.dependencies@, entry.alias@, j as int);
            if j < self.dependencies.len() {
                lemma_reimport(self.dependencies@, j as int, entry);
            } else {
                lemma_import_new(self.dependencies@, entry);
            }
        }
        if j < self.dependencies.len() {
            self.dependencies.set(j, entry);
        } else {
            self.dependencies.push(entry);
        }
    }

    /// The path imported under `alias` in this scope's own table.
    pub fn resolve_import(&self, alias: &String) -> (r: Option<String>)
        ensures
            match (r, resolve_import(self@, alias@)) {
                (Some(p), Some(q)) => p@ == q,
                (None, None) => true,
                _ => false,
            },
    {
        let mut j: usize = 0;
        while j < self.dependencies.len() && self.dependencies[j].alias != *alias
            invariant
                j <= self.dependencies.len(),
                forall|k: int| 0 <= k < j ==> self.dependencies@[k].alias@ != alias@,
            decreases self.dependencies.len() - j,
        {
            j += 1;
        }
        proof {
            lemma_first_import_is(self.dependencies@, alias@, j as int);
            lemma_first_import(self.dependencies@, alias@);
        }
        if j < self.dependencies.len() {
            Some(self.dependencies[j].path.clone())
        } else {
            None
        }
    }
}

} // verus!
