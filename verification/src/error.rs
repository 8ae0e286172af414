//! Why an evaluation stopped without a value.

use crate::text::{clone_strings, text_of, texts};
use vstd::prelude::*;

verus! {

/// The kinds of failure.
#[derive(Clone, Copy, Debug, PartialEq, Eq, Structural)]
pub enum ErrorKind {
    /// Malformed text of a statement or an operand.
    ParseError,
    /// A literal that does not fit its declared type, or a call with the wrong number
    /// of arguments.
    TypeError,
    /// A variable, function, import or marker that is not bound.
    UndefinedReference,
    /// A call of a value that is no function.
    NotCallableError,
    /// A jump through a name that holds no statement index.
    RuntimeError,
    /// An outside program that failed or did not keep to the protocol.
    ExternalProcessError,
    /// The depth of calls or the number of steps went beyond its limit.
    ResourceExhausted,
}

/// A failure: its kind, the text that caused it and, once a statement runner has seen
/// it, the index of the statement it arose in.
#[derive(Debug)]
pub struct Failure {
    pub kind: ErrorKind,
    pub index: Option<usize>,
    pub text: String,
}

/// The model of a failure.
pub struct FailureModel {
    pub kind: ErrorKind,
    pub index: Option<usize>,
    pub text: Seq<char>,
}

impl View for Failure {
    type V = FailureModel;

    open spec fn view(&self) -> FailureModel {
        FailureModel { kind: self.kind, index: self.index, text: self.text@ }
    }
}

/// A call to an outside program: its path and its arguments, serialised.
#[derive(Debug)]
pub struct Request {
    pub path: String,
    pub args: Vec<String>,
}

/// The model of a call to an outside program.
pub struct RequestModel {
    pub path: Seq<char>,
    pub args: Seq<Seq<char>>,
}

impl View for Request {
    type V = RequestModel;

    open spec fn view(&self) -> RequestModel {
        RequestModel { path: self.path@, args: texts(self.args@) }
    }
}

/// What came of a call to an outside program: whether it was built and ended with exit
/// code zero, and what it wrote to its standard output and to its standard error.
#[derive(Debug)]
pub struct Reply {
    pub success: bool,
    pub stdout: String,
    pub stderr: String,
}

/// The model of a reply.
pub struct ReplyModel {
    pub success: bool,
    pub stdout: Seq<char>,
    pub stderr: Seq<char>,
}

impl View for Reply {
    type V = ReplyModel;

    open spec fn view(&self) -> ReplyModel {
        ReplyModel { success: self.success, stdout: self.stdout@, stderr: self.stderr@ }
    }
}

/// The models of a sequence of replies.
pub open spec fn replies_model(replies: Seq<Reply>) -> Seq<ReplyModel> {
    replies.map_values(|r: Reply| r@)
}

/// Why an evaluation stopped without a value: it failed, or it needs the reply to a
/// call that no reply was given for yet.
#[derive(Debug)]
pub enum Halt {
    Failed(Failure),
    Pending(Request),
}

/// The model of a halt.
pub enum HaltModel {
    Failed(FailureModel),
    Pending(RequestModel),
}

impl View for Halt {
    type V = HaltModel;

    open spec fn view(&self) -> HaltModel {
        match self {
            Halt::Failed(e) => HaltModel::Failed(e@),
            Halt::Pending(r) => HaltModel::Pending(r@),
        }
    }
}

/// The failure of kind `kind` that `text` caused, not yet seen by a statement runner.
pub open spec fn failed(kind: ErrorKind, text: Seq<char>) -> HaltModel {
    HaltModel::Failed(FailureModel { kind, index: None, text })
}

/// The halt `h` as the runner of statement `index` hands it on: a failure that has no
/// index yet gets this one.
pub open spec fn located(h: HaltModel, index: usize) -> HaltModel {
    match h {
        HaltModel::Failed(e) => HaltModel::Failed(
            FailureModel {
                kind: e.kind,
                index: if e.index is None {
                    Some(index)
                } else {
                    e.index
                },
                text: e.text,
            },
        ),
        HaltModel::Pending(r) => HaltModel::Pending(r),
    }
}

impl Halt {
    /// The failure of kind `kind` that `text` caused.
    pub fn failure(kind: ErrorKind, text: &[char]) -> (r: Halt)
        ensures
            r@ == failed(kind, text@),
    {
        Halt::Failed(Failure { kind, index: None, text: text_of(text) })
    }

    /// The halt as the runner of statement `index` hands it on.
    pub fn located(self, index: usize) -> (r: Halt)
        ensures
            r@ == located(self@, index),
    {
        match self {
            Halt::Failed(e) => Halt::Failed(
                Failure {
                    kind: e.kind,
                    index: if e.index.is_none() {
                        Some(index)
                    } else {
                        e.index
                    },
                    text: e.text,
                },
            ),
            Halt::Pending(r) => Halt::Pending(r),
        }
    }
}

impl Clone for Request {
    fn clone(&self) -> (r: Self)
        ensures
            r@ == self@,
    {
        Request { path: self.path.clone(), args: clone_strings(&self.args) }
    }
}

} // verus!
