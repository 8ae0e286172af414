//! Jumps to markers, and the runner of a function.

use crate::error::{ErrorKind, Halt, Reply};
use crate::evaluator::{advanced, run_frame, step, value_result, world, Advance, Limits};
use crate::semantics::{advance, frame, jump, run_from, scan};
use crate::text::text_of;
use crate::value::{
    bindings_model, imports_model, statements, Binding, Environment, Function, Statement, Value,
    Verb,
};
use std::rc::Rc;
use vstd::prelude::*;
use vstd::slice::slice_subrange;

verus! {

/// The number of statements other than `Mark` that stand in `lines` from `from` on
/// before the first `Mark` of the name `target`, if there is such a `Mark`.
pub fn scan_from(lines: &Vec<Statement>, from: usize, target: &[char]) -> (r: Option<usize>)
    requires
        from <= lines.len(),
    ensures
        match scan(statements(lines@).skip(from as int), target@) {
            Some(n) => r == Some(n as usize) && n <= lines.len() - from,
            None => r is None,
        },
{
    let ghost all = statements(lines@);
    let name = text_of(target);
    let mut i: usize = from;
    let mut count: usize = 0;
    while i < lines.len()
        invariant
            from <= i <= lines.len(),
            count <= i - from,
            all == statements(lines@),
            name@ == target@,
            match scan(all.skip(i as int), target@) {
                Some(n) => scan(all.skip(from as int), target@) == Some(n + count as nat),
                None => scan(all.skip(from as int), target@) is None,
            },
        decreases lines.len() - i,
    {
        let line = &lines[i];
        proof {
            assert(all.skip(i as int)[0] == line@);
            assert(all.skip(i as int).drop_first() == all.skip(i + 1));
            assert(line@.nouns.len() == line.nouns.len());
            if line.nouns.len() > 0 {
                assert(line@.nouns[0] == line.nouns@[0]@);
            }
        }
        match line.verb {
            Verb::Mark => {
                if line.nouns.len() > 0 && line.nouns[0] == name {
                    return Some(count);
                }
            },
            _ => {
                count += 1;
            },
        }
        i += 1;
    }
    None
}

/// Where a jump to `target` from the statement at `index` leads.
pub fn jump_to(lines: &Vec<Statement>, index: usize, env: &Environment, target: &[char]) -> (r:
    Result<usize, ErrorKind>)
    requires
        index < lines.len(),
    ensures
        match jump(statements(lines@), index as nat, env@, target@) {
            Ok(to) => r == Ok::<usize, ErrorKind>(to as usize) && to <= lines.len(),
            Err(kind) => r == Err::<usize, ErrorKind>(kind),
        },
{
    if target.len() > 0 && target[0] == '~' {
        let name = text_of(slice_subrange(target, 1, target.len()));
        match env.local(&name) {
            Some(Value::Int(n)) => {
                if *n < 0 || *n as usize > lines.len() {
                    Ok(lines.len())
                } else {
                    Ok(*n as usize)
                }
            },
            _ => Err(ErrorKind::RuntimeError),
        }
    } else {
        let found = if target.len() > 0 && target[0] == '*' {
            assert(statements(lines@).skip(0) == statements(lines@));
            scan_from(lines, 0, target)
        } else {
            scan_from(lines, index, target)
        };
        match found {
            Some(n) => {
                if n > lines.len() - index {
                    Ok(lines.len())
                } else {
                    Ok(index + n)
                }
            },
            None => Err(ErrorKind::UndefinedReference),
        }
    }
}

/// The runner of one function.
#[derive(Debug)]
pub struct ASTRunner {
    pub ast: Function,
}

impl ASTRunner {
    /// The runner of the function `ast`.
    pub fn new(ast: Function) -> (r: Self)
        ensures
            r.ast == ast,
    {
        ASTRunner { ast }
    }

    /// The scope of an invocation from `parent_env` with `params` bound: nothing is
    /// imported in it.
    pub fn enter(parent_env: Environment, params: Vec<Binding>) -> (r: Environment)
        ensures
            r@ == frame(parent_env@, bindings_model(params@)),
    {
        let r = Environment {
            vars: params,
            parent: Some(Rc::new(parent_env)),
            dependencies: Vec::new(),
        };
        assert(imports_model(r.dependencies@) == Map::<Seq<char>, Seq<char>>::empty());
        r
    }

    /// Executes the statement at `index` in the scope `env`, after `used` replies
    /// have been used, and says where the run goes on and how many replies are used
    /// then; a statement that halts leaves the scope as it was.
    pub fn step(
        &self,
        index: usize,
        env: &mut Environment,
        replies: &Vec<Reply>,
        limits: Limits,
        used: usize,
    ) -> (r: (Result<Advance, Halt>, usize))
        ensures
            r.0 is Err ==> *final(env) == *old(env),
            advanced(
                r,
                final(env)@,
                advance(
                    world(replies@, limits.steps),
                    self.ast@,
                    index as nat,
                    old(env)@,
                    used as nat,
                    limits.depth as nat,
                ),
            ),
    {
        step(replies, limits.steps, &self.ast, index, env, used, limits.depth)
    }

    /// Runs the function from its first statement in a new scope inside `parent_env`
    /// with `params` bound, given the replies of the outside programs called so far.
    ///
    /// The result is the value of the first `Return` that the run reaches, `Undefined`
    /// where it runs past the last statement, and a halt where a statement fails, the
    /// limits are exceeded, or a call of an outside program has no reply yet.
    pub fn run(
        &self,
        parent_env: Environment,
        params: Vec<Binding>,
        replies: &Vec<Reply>,
        limits: Limits,
    ) -> (r: Result<Value, Halt>)
        ensures
            value_result(r) == run_from(
                world(replies@, limits.steps),
                self.ast@,
                0,
                frame(parent_env@, bindings_model(params@)),
                0,
                limits.depth as nat,
                limits.steps as nat,
            ).result,
    {
        let env = ASTRunner::enter(parent_env, params);
        run_frame(replies, limits.steps, &self.ast, env, 0, limits.depth).0
    }
}

} // verus!
