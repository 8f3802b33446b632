//! Mozc operations as values, and their execution against a session. The
//! engine collects a keystroke's operations into one batch, which a worker
//! runs in order against the session.
use vstd::prelude::*;
use crate::client::{MozcError, MozcOutput};

verus! {

/// A single Mozc operation.
#[derive(Debug, Clone)]
pub enum Op {
    SendKana(String),
    Backspace,
    Submit,
    Revert,
    SendFunctionKey(String),
    SendModified { key: String, mods: u8 },
    /// Commit the candidate with this Mozc id.
    SelectCandidate(i32),
}

/// Model of an operation.
pub enum OpV {
    SendKana(Seq<char>),
    Backspace,
    Submit,
    Revert,
    SendFunctionKey(Seq<char>),
    SendModified { key: Seq<char>, mods: u8 },
    SelectCandidate(i32),
}

impl View for Op {
    type V = OpV;

    open spec fn view(&self) -> OpV {
        match self {
            Op::SendKana(s) => OpV::SendKana(s@),
            Op::Backspace => OpV::Backspace,
            Op::Submit => OpV::Submit,
            Op::Revert => OpV::Revert,
            Op::SendFunctionKey(s) => OpV::SendFunctionKey(s@),
            Op::SendModified { key, mods } => OpV::SendModified { key: key@, mods: *mods },
            Op::SelectCandidate(id) => OpV::SelectCandidate(*id),
        }
    }
}

impl DeepView for Op {
    type V = OpV;

    open spec fn deep_view(&self) -> OpV {
        self@
    }
}

/// Anything that can execute Mozc operations: the connected client, or a
/// stand-in in tests. `answers(op, r)` says that `r` is an answer the
/// session gives to `op`; each method answers its own operation.
pub trait MozcSession {
    /// Whether `r` is an answer the session gives to `op`. A session that
    /// says nothing of its answers keeps this default.
    open spec fn answers(&self, op: OpV, r: Result<MozcOutput, MozcError>) -> bool {
        true
    }

    fn send_kana(&self, kana: &str) -> (r: Result<MozcOutput, MozcError>)
        ensures
            self.answers(OpV::SendKana(kana@), r),
    ;

    fn send_backspace(&self) -> (r: Result<MozcOutput, MozcError>)
        ensures
            self.answers(OpV::Backspace, r),
    ;

    fn submit(&self) -> (r: Result<MozcOutput, MozcError>)
        ensures
            self.answers(OpV::Submit, r),
    ;

    fn revert(&self) -> (r: Result<MozcOutput, MozcError>)
        ensures
            self.answers(OpV::Revert, r),
    ;

    fn send_function_key(&self, name: &str) -> (r: Result<MozcOutput, MozcError>)
        ensures
            self.answers(OpV::SendFunctionKey(name@), r),
    ;

    fn send_modified_key(&self, key: &str, mods: u8) -> (r: Result<MozcOutput, MozcError>)
        ensures
            self.answers(OpV::SendModified { key: key@, mods }, r),
    ;

    fn select_candidate(&self, id: i32) -> (r: Result<MozcOutput, MozcError>)
        ensures
            self.answers(OpV::SelectCandidate(id), r),
    ;
}

/// Execute one operation against a session.
pub fn apply_op<S: MozcSession>(session: &S, op: &Op) -> (r: Result<MozcOutput, MozcError>)
    ensures
        session.answers(op@, r),
{
    match op {
        Op::SendKana(s) => session.send_kana(s.as_str()),
        Op::Backspace => session.send_backspace(),
        Op::Submit => session.submit(),
        Op::Revert => session.revert(),
        Op::SendFunctionKey(name) => session.send_function_key(name.as_str()),
        Op::SendModified { key, mods } => session.send_modified_key(key.as_str(), *mods),
        Op::SelectCandidate(id) => session.select_candidate(*id),
    }
}

/// Result of a batch: one entry per operation, in order.
pub type BatchResult = Vec<Result<MozcOutput, MozcError>>;

/// Execute a batch of operations in order, keeping each one's result.
pub fn run_batch<S: MozcSession>(session: &S, ops: &Vec<Op>) -> (r: BatchResult)
    ensures
        r@.len() == ops@.len(),
        forall|i: int| 0 <= i < ops@.len() ==> session.answers(ops@[i]@, #[trigger] r@[i]),
{
    let mut r: BatchResult = Vec::new();
    let mut i: usize = 0;
    while i < ops.len()
        invariant
            i <= ops.len(),
            r@.len() == i,
            forall|j: int| 0 <= j < i ==> session.answers(ops@[j]@, #[trigger] r@[j]),
        decreases ops.len() - i,
    {
        let out = apply_op(session, &ops[i]);
        r.push(out);
        i = i + 1;
    }
    r
}

/// Error from a worker round trip.
#[derive(Debug)]
pub enum WorkerError {
    /// The worker did not answer in time, or its thread is gone; it must be
    /// discarded and recreated.
    Dead,
}

} // verus!
