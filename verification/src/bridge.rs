//! The protocol between the interpreter and the outside programs that it calls: what
//! is handed to a program, and what its reply means.

use crate::error::{ErrorKind, Halt, Reply, Request, RequestModel};
use crate::literal::parse_literal;
use crate::semantics::{interpret, serialized_all};
use crate::syntax::split_pair;
use crate::text::{chars_of, contains_char, texts, trimmed};
use crate::value::{lemma_values_model, values_model, Value};
use vstd::prelude::*;

verus! {

/// The call of the program at `path` with the arguments `args`, each serialised.
pub fn request(path: &String, args: &Vec<Value>) -> (r: Request)
    ensures
        r@ == (RequestModel { path: path@, args: serialized_all(values_model(args@)) }),
{
    let mut texts_out: Vec<String> = Vec::new();
    let mut i: usize = 0;
    proof {
        lemma_values_model(args@);
    }
    while i < args.len()
        invariant
            i <= args.len(),
            values_model(args@).len() == args.len(),
            forall|k: int| 0 <= k < args.len() ==> values_model(args@)[k] == #[trigger] args@[k]@,
            texts(texts_out@) == serialized_all(values_model(args@)).take(i as int),
        decreases args.len() - i,
    {
        let ghost before = texts_out@;
        let t = args[i].serialize();
        texts_out.push(t);
        i += 1;
        assert(texts(texts_out@) =~= texts(before).push(t@));
        assert(texts(texts_out@) =~= serialized_all(values_model(args@)).take(i as int));
    }
    assert(serialized_all(values_model(args@)).take(args.len() as int) == serialized_all(
        values_model(args@),
    ));
    Request { path: path.clone(), args: texts_out }
}

/// What the reply of an outside program gives.
pub fn interpret_reply(reply: &Reply) -> (r: Result<Value, Halt>)
    ensures
        match interpret(reply@) {
            Ok(v) => r is Ok && r->Ok_0@ == v,
            Err(h) => r is Err && r->Err_0@ == h,
        },
{
    if !reply.success {
        let text = chars_of(reply.stderr.as_str());
        return Err(Halt::failure(ErrorKind::ExternalProcessError, text.as_slice()));
    }
    let out = chars_of(reply.stdout.as_str());
    let line = trimmed(out.as_slice());
    if contains_char(line, '\n') {
        return Err(Halt::failure(ErrorKind::ExternalProcessError, out.as_slice()));
    }
    match split_pair(line) {
        None => Err(Halt::failure(ErrorKind::ExternalProcessError, out.as_slice())),
        Some((value, kind)) => match parse_literal(value, kind) {
            Some(v) => Ok(v),
            None => Err(Halt::failure(ErrorKind::ExternalProcessError, out.as_slice())),
        },
    }
}

} // verus!
