use std::cell::RefCell;

use mzkana_core::client::{MozcError, MozcOutput};
use mzkana_core::worker::{apply_op, run_batch, BatchResult, MozcSession, Op};

/// A scriptable in-process session: each call pops the next queued result.
struct MockSession {
    calls: RefCell<Vec<String>>,
    replies: RefCell<Vec<Result<MozcOutput, MozcError>>>,
}

impl MockSession {
    fn new(replies: Vec<Result<MozcOutput, MozcError>>) -> Self {
        Self { calls: RefCell::new(Vec::new()), replies: RefCell::new(replies) }
    }

    fn next(&self, label: &str) -> Result<MozcOutput, MozcError> {
        self.calls.borrow_mut().push(label.to_string());
        self.replies.borrow_mut().remove(0)
    }
}

fn out(preedit: &str) -> MozcOutput {
    MozcOutput { preedit: preedit.to_string(), consumed: true, ..Default::default() }
}

impl MozcSession for MockSession {
    fn send_kana(&self, kana: &str) -> Result<MozcOutput, MozcError> {
        self.next(&format!("kana:{kana}"))
    }

    fn send_backspace(&self) -> Result<MozcOutput, MozcError> {
        self.next("bs")
    }

    fn submit(&self) -> Result<MozcOutput, MozcError> {
        self.next("submit")
    }

    fn revert(&self) -> Result<MozcOutput, MozcError> {
        self.next("revert")
    }

    fn send_function_key(&self, name: &str) -> Result<MozcOutput, MozcError> {
        self.next(&format!("fn:{name}"))
    }

    fn send_modified_key(&self, key: &str, mods: u8) -> Result<MozcOutput, MozcError> {
        self.next(&format!("mod:{key}:{mods}"))
    }

    fn select_candidate(&self, id: i32) -> Result<MozcOutput, MozcError> {
        self.next(&format!("select:{id}"))
    }
}

#[test]
fn apply_op_maps_each_variant() {
    let session = MockSession::new(vec![Ok(out("き")), Ok(out("")), Ok(out(""))]);
    assert_eq!(apply_op(&session, &Op::SendKana("き".into())).unwrap().preedit, "き");
    apply_op(&session, &Op::Backspace).unwrap();
    apply_op(&session, &Op::Submit).unwrap();
    assert_eq!(*session.calls.borrow(), vec!["kana:き", "bs", "submit"]);
}

#[test]
fn batch_runs_ops_in_order_via_apply_op() {
    let session = MockSession::new(vec![Ok(out("")), Ok(out("を"))]);
    let ops = [Op::Backspace, Op::SendKana("を".into())];
    let results: BatchResult = ops.iter().map(|op| apply_op(&session, op)).collect();
    assert_eq!(results.len(), 2);
    assert!(results[0].is_ok());
    assert_eq!(results[1].as_ref().unwrap().preedit, "を");
    assert_eq!(*session.calls.borrow(), vec!["bs", "kana:を"]);
}

#[test]
fn batch_preserves_per_op_errors() {
    let session = MockSession::new(vec![Ok(out("あ")), Err(MozcError::NotConnected)]);
    let ops = [Op::SendKana("あ".into()), Op::Submit];
    let results: BatchResult = ops.iter().map(|op| apply_op(&session, op)).collect();
    assert!(results[0].is_ok());
    assert!(matches!(results[1], Err(MozcError::NotConnected)));
}

#[test]
fn apply_op_passes_arguments_through() {
    let session = MockSession::new(vec![Ok(out("")), Ok(out("")), Ok(out("")), Ok(out(""))]);
    apply_op(&session, &Op::Revert).unwrap();
    apply_op(&session, &Op::SendFunctionKey("Left".into())).unwrap();
    apply_op(&session, &Op::SendModified { key: "z".into(), mods: 2 }).unwrap();
    apply_op(&session, &Op::SelectCandidate(7)).unwrap();
    assert_eq!(*session.calls.borrow(), vec!["revert", "fn:Left", "mod:z:2", "select:7"]);
}

#[test]
fn run_batch_keeps_one_result_per_op_in_order() {
    let session = MockSession::new(vec![Ok(out("a")), Err(MozcError::NotConnected), Ok(out("c"))]);
    let ops = vec![Op::SendKana("a".into()), Op::Backspace, Op::Submit];
    let results = run_batch(&session, &ops);
    assert_eq!(results.len(), 3);
    assert_eq!(results[0].as_ref().unwrap().preedit, "a");
    assert!(results[1].is_err());
    assert_eq!(results[2].as_ref().unwrap().preedit, "c");
    assert_eq!(*session.calls.borrow(), vec!["kana:a", "bs", "submit"]);
}
