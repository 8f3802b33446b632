use mzkana_core::cli::process_token;
use mzkana_core::client::{MozcError, MozcOutput};
use mzkana_core::config::{
    DirectRule, DirectTriggerDef, HoldDetection, LayerDef, LayerKind, Layout, LayoutFile, LayoutMode, Meta, Settings,
    TapAction, TriggerKind,
};
use mzkana_core::engine::{reconnect_due, BatchOutcome, EngineCore, FfiCandidate};
use mzkana_core::ffi::result_from;
use mzkana_core::proto::Candidate;
use mzkana_core::statemachine::{InputEvent, OutputAction, StateMachine};
use mzkana_core::worker::Op;

fn layout() -> Layout {
    let f = LayoutFile {
        meta: Meta {
            name: "engine".to_string(),
            version: "1".to_string(),
            author: String::new(),
            mode: LayoutMode::Kana,
            schema: 1,
        },
        settings: Settings::default(),
        modifier: Vec::new(),
        direct_trigger: None,
        layer: vec![LayerDef {
            id: "base".to_string(),
            kind: LayerKind::Single,
            trigger: None,
            modifier: None,
            grid: ". . . .\n. q w e\n1 そ こ !Return\n".to_string(),
        }],
        chord: Vec::new(),
        direct: Vec::new(),
        alias: Vec::new(),
    };
    Layout::from_file(&f).unwrap()
}

fn out(preedit: &str, consumed: bool) -> MozcOutput {
    MozcOutput { preedit: preedit.to_string(), consumed, ..Default::default() }
}

#[test]
fn without_mozc_kana_is_committed_directly() {
    let mut e = EngineCore::new(layout());
    let actions = e.key_actions("q", true, false, 1000);
    assert_eq!(actions, vec![OutputAction::SendKana("そ".to_string())]);
    let (r, keep) = e.dispatch_actions(actions, BatchOutcome::Skipped, true);
    assert!(keep);
    assert!(r.consumed);
    assert_eq!(r.commit.as_deref(), Some("そ"));
    assert_eq!(r.passthrough_key, None);
}

#[test]
fn mozc_output_becomes_the_preedit() {
    let mut e = EngineCore::new(layout());
    let actions = e.key_actions("q", true, false, 1000);
    assert_eq!(EngineCore::batch_ops(&actions).len(), 1);
    let (r, keep) = e.dispatch_actions(actions, BatchOutcome::Results(vec![Ok(out("そ", true))]), true);
    assert!(keep);
    assert!(r.consumed);
    assert_eq!(r.preedit, "そ");
    assert_eq!(r.commit, None);
}

#[test]
fn dead_worker_is_dropped_and_kana_committed() {
    let mut e = EngineCore::new(layout());
    let actions = e.key_actions("q", true, false, 1000);
    let (r, keep) = e.dispatch_actions(actions, BatchOutcome::Dead, true);
    assert!(!keep);
    assert_eq!(r.commit.as_deref(), Some("そ"));
}

#[test]
fn failed_answer_drops_the_worker() {
    let mut e = EngineCore::new(layout());
    let actions = e.key_actions("q", true, false, 1000);
    let (r, keep) = e.dispatch_actions(actions, BatchOutcome::Results(vec![Err(MozcError::NotConnected)]), true);
    assert!(!keep);
    assert_eq!(r.commit.as_deref(), Some("そ"));
}

#[test]
fn unconsumed_backspace_passes_through() {
    let mut e = EngineCore::new(layout());
    let actions = e.key_actions("BackSpace", true, false, 1000);
    assert_eq!(actions, vec![OutputAction::Backspace]);
    let (r, _) = e.dispatch_actions(actions, BatchOutcome::Results(vec![Ok(out("", false))]), true);
    assert_eq!(r.passthrough_key.as_deref(), Some("BackSpace"));
    assert!(!r.consumed);
}

#[test]
fn function_key_without_mozc_passes_through() {
    let mut e = EngineCore::new(layout());
    let actions = e.key_actions("e", true, false, 1000);
    assert_eq!(actions, vec![OutputAction::SendFunctionKey("Return".to_string())]);
    let (r, _) = e.dispatch_actions(actions, BatchOutcome::Skipped, true);
    assert_eq!(r.passthrough_key.as_deref(), Some("Return"));
}

#[test]
fn no_action_consumes_key_down_only() {
    let mut e = EngineCore::new(layout());
    let (r, keep) = e.dispatch_actions(Vec::new(), BatchOutcome::Skipped, true);
    assert!(r.consumed && keep);
    let (r, _) = e.dispatch_actions(Vec::new(), BatchOutcome::Skipped, false);
    assert!(!r.consumed);
}

#[test]
fn converting_output_clears_tentative() {
    let mut e = EngineCore::new(layout());
    let actions = e.key_actions("q", true, false, 1000);
    let mut conv = out("そ", true);
    conv.is_converting = true;
    e.dispatch_actions(actions, BatchOutcome::Results(vec![Ok(conv)]), true);
    assert_eq!(e.tentative_kana_string(), "");
}

#[test]
fn mozc_result_is_committed() {
    let mut e = EngineCore::new(layout());
    let mut o = out("", true);
    o.result = Some("変換".to_string());
    let (r, _) = e.dispatch_actions(vec![OutputAction::MozcSubmit], BatchOutcome::Results(vec![Ok(o)]), true);
    assert_eq!(r.commit.as_deref(), Some("変換"));
}

#[test]
fn modified_key_not_consumed_is_forwarded() {
    let mut e = EngineCore::new(layout());
    let actions = vec![OutputAction::SendModifiedKey { key: "z".to_string(), mods: 2 }];
    let (r, _) = e.dispatch_actions(actions, BatchOutcome::Results(vec![Ok(out("", false))]), true);
    assert_eq!(r.forward_key.as_deref(), Some("z"));
    assert_eq!(r.forward_mods, 2);
    assert!(r.consumed);
}

#[test]
fn super_modified_key_issues_no_op() {
    let acts = vec![
        OutputAction::SendModifiedKey { key: "z".to_string(), mods: 8 },
        OutputAction::Passthrough("x".to_string()),
        OutputAction::SubmitAndCommit("字".to_string()),
    ];
    let ops = EngineCore::batch_ops(&acts);
    assert_eq!(ops.len(), 1);
    assert!(matches!(ops[0], Op::Submit));
}

#[test]
fn selecting_a_candidate_commits_and_ends_composition() {
    let mut e = EngineCore::new(layout());
    e.key_actions("q", true, false, 1000);
    let mut o = out("", true);
    o.result = Some("候補".to_string());
    let (r, keep) = e.select_candidate_result(BatchOutcome::Results(vec![Ok(o)]));
    assert!(keep);
    assert!(r.consumed);
    assert_eq!(r.commit.as_deref(), Some("候補"));
    assert_eq!(r.preedit, "");
    assert_eq!(e.tentative_kana_string(), "");
    let (r, keep) = e.select_candidate_result(BatchOutcome::Dead);
    assert!(!keep && !r.consumed);
}

#[test]
fn candidates_are_prepared_for_the_c_abi() {
    let c = FfiCandidate::from_core(Candidate {
        index: 0,
        value: "字".to_string(),
        id: Some(3),
        annotation: Some("x".to_string()),
    });
    assert_eq!(c.value, vec![0xE5, 0xAD, 0x97, 0]);
    assert_eq!(c.annotation, Some(vec![b'x', 0]));
    assert_eq!(c.id, Some(3));
}

#[test]
fn candidates_from_output_are_shown() {
    let mut e = EngineCore::new(layout());
    let mut o = out("か", true);
    o.candidates = vec![Candidate { index: 0, value: "蚊".to_string(), id: None, annotation: None }];
    o.focused_index = Some(0);
    e.dispatch_actions(vec![OutputAction::Backspace], BatchOutcome::Results(vec![Ok(o)]), true);
    assert_eq!(e.candidate_count(), 1);
    assert_eq!(e.candidate(0).unwrap().value, "蚊\0".as_bytes().to_vec());
    assert!(e.candidate(1).is_none());
    assert_eq!(e.focused_index(), Some(0));
    e.reset();
    assert_eq!(e.candidate_count(), 0);
}

#[test]
fn settings_as_numbers() {
    let mut e = EngineCore::new(layout());
    assert_eq!(e.sensitive_field_behavior(), 0);
    assert_eq!(e.preedit_fallback(), 1);
    assert!(e.focus_out_preserved());
}

#[test]
fn reconnect_backoff() {
    assert!(!reconnect_due(true, None, 10));
    assert!(reconnect_due(false, None, 10));
    assert!(!reconnect_due(false, Some(20), 10));
    assert!(reconnect_due(false, Some(20), 20));
}

#[test]
fn result_record_cuts_text_on_a_character_boundary() {
    let mut e = EngineCore::new(layout());
    let (mut r, _) = e.dispatch_actions(Vec::new(), BatchOutcome::Skipped, true);
    r.preedit = "あ".repeat(200);
    r.commit = Some("ok".to_string());
    r.forward_key = Some("Left".to_string());
    r.forward_mods = 1;
    let c = result_from(r);
    assert_eq!(c.consumed, 1);
    assert_eq!(c.preedit_len, 510);
    assert_eq!(c.preedit[510], 0);
    assert_eq!(&c.preedit[..3], "あ".as_bytes());
    assert_eq!(c.commit_len, 2);
    assert_eq!(&c.commit[..3], b"ok\0");
    assert_eq!(c.passthrough_key_len, 0);
    assert_eq!(c.forward_key_len, 4);
    assert_eq!(c.forward_modifiers, 1);
}

#[test]
fn replacing_the_layout_resets_the_composition() {
    let mut e = EngineCore::new(layout());
    e.key_actions("q", true, false, 1000);
    e.replace_layout(layout());
    assert_eq!(e.tentative_kana_string(), "");
}

#[test]
fn replacing_the_layout_switches_the_key_map() {
    let other = LayoutFile {
        meta: Meta {
            name: "other".to_string(),
            version: "1".to_string(),
            author: String::new(),
            mode: LayoutMode::Kana,
            schema: 1,
        },
        settings: Settings::default(),
        modifier: Vec::new(),
        direct_trigger: None,
        layer: vec![LayerDef {
            id: "base".to_string(),
            kind: LayerKind::Single,
            trigger: None,
            modifier: None,
            grid: ". . . .\n. q w e\n1 た ち つ\n".to_string(),
        }],
        chord: Vec::new(),
        direct: Vec::new(),
        alias: Vec::new(),
    };
    let mut e = EngineCore::new(layout());
    assert_eq!(e.key_actions("w", true, false, 1000), vec![OutputAction::SendKana("こ".to_string())]);
    e.key_actions("w", false, false, 1010);
    e.replace_layout(Layout::from_file(&other).unwrap());
    assert_eq!(e.tentative_kana_string(), "");
    assert_eq!(e.key_actions("w", true, false, 2000), vec![OutputAction::SendKana("ち".to_string())]);
    assert_eq!(e.key_actions("e", true, false, 2100), vec![OutputAction::SendKana("つ".to_string())]);
    assert_eq!(e.tentative_kana_string(), "ちつ");
}

#[test]
fn without_mozc_a_direct_commit_sends_no_return() {
    let f = LayoutFile {
        meta: Meta {
            name: "direct".to_string(),
            version: "1".to_string(),
            author: String::new(),
            mode: LayoutMode::Hybrid,
            schema: 1,
        },
        settings: Settings::default(),
        modifier: Vec::new(),
        direct_trigger: Some(DirectTriggerDef {
            keys: vec!["henkan".to_string()],
            kind: TriggerKind::Hold,
            hold_detection: HoldDetection::Interrupt,
            hold_timeout_ms: 150,
            tap_action: TapAction::Passthrough,
        }),
        layer: vec![LayerDef {
            id: "base".to_string(),
            kind: LayerKind::Single,
            trigger: None,
            modifier: None,
            grid: ". . . .\n. q w e\n1 そ こ た\n".to_string(),
        }],
        chord: Vec::new(),
        direct: vec![DirectRule { sequence: vec!["a".to_string(), "b".to_string()], output: "日".to_string() }],
        alias: Vec::new(),
    };
    let mut e = EngineCore::new(Layout::from_file(&f).unwrap());
    // Without Mozc the kana is committed at once; no preedit is shown.
    let a = e.key_actions("q", true, false, 1000);
    let (r, _) = e.dispatch_actions(a, BatchOutcome::Skipped, true);
    assert_eq!(r.commit.as_deref(), Some("そ"));
    e.key_actions("q", false, false, 1010);
    e.key_actions("henkan", true, false, 1020);
    e.key_actions("a", true, false, 1030);
    let a = e.key_actions("b", true, false, 1040);
    assert_eq!(a, vec![OutputAction::CommitDirect("日".to_string())]);
    let (r, _) = e.dispatch_actions(a, BatchOutcome::Skipped, true);
    assert_eq!(r.commit.as_deref(), Some("日"));
    assert_eq!(r.passthrough_key, None);
}

// ── Typed tokens ─────────────────────────────────────────────────────────────

#[test]
fn typed_tokens_press_release_and_chord() {
    let mut sm = StateMachine::new(layout());
    assert_eq!(process_token(&mut sm, "q", 1000).unwrap(), vec![OutputAction::SendKana("そ".to_string())]);
    assert!(process_token(&mut sm, "q^", 1000).unwrap().is_empty());
    assert_eq!(
        process_token(&mut sm, "q+w", 1000).unwrap(),
        vec![OutputAction::SendKana("そ".to_string()), OutputAction::SendKana("こ".to_string())]
    );
    assert_eq!(sm.tentative_kana_string(), "そそこ");
}

#[test]
fn ill_formed_tokens_are_errors() {
    let mut sm = StateMachine::new(layout());
    assert_eq!(process_token(&mut sm, "", 1000).unwrap_err(), "invalid token: empty key name");
    assert_eq!(process_token(&mut sm, "^", 1000).unwrap_err(), "invalid token \"^\": empty key before '^'");
    assert_eq!(
        process_token(&mut sm, "a+b^", 1000).unwrap_err(),
        "invalid token \"a+b^\": '^' and '+' cannot be combined"
    );
    assert_eq!(process_token(&mut sm, "a++b", 1000).unwrap_err(), "invalid token \"a++b\": empty segment in chord");
    assert_eq!(sm.tentative_kana_string(), "");
    let _ = InputEvent::down("q");
}
