use mzkana_core::config::{
    ChordRule, DirectRule, HoldDetection, LayerDef, LayerKind, Layout, LayoutFile, LayoutMode, Meta,
    ModifierDef, ModifierKind, Settings, TapAction,
};
use mzkana_core::statemachine::{InputEvent, OutputAction, StateMachine, MOD_CTRL, MOD_SHIFT};

// ── Layout builders ──────────────────────────────────────────────────────────

fn meta(mode: LayoutMode) -> Meta {
    Meta {
        name: "test".to_string(),
        version: "1".to_string(),
        author: String::new(),
        mode,
        schema: 1,
    }
}

fn layer(id: &str, kind: LayerKind, trigger: Option<&str>, modifier: Option<&str>, grid: &str) -> LayerDef {
    LayerDef {
        id: id.to_string(),
        kind,
        trigger: trigger.map(|s| s.to_string()),
        modifier: modifier.map(|s| s.to_string()),
        grid: grid.to_string(),
    }
}

fn file(mode: LayoutMode) -> LayoutFile {
    LayoutFile {
        meta: meta(mode),
        settings: Settings::default(),
        modifier: Vec::new(),
        direct_trigger: None,
        layer: Vec::new(),
        chord: Vec::new(),
        direct: Vec::new(),
        alias: Vec::new(),
    }
}

fn chord(keys: &[&str], output: &str, symmetric: bool) -> ChordRule {
    ChordRule {
        keys: keys.iter().map(|s| s.to_string()).collect(),
        output: output.to_string(),
        symmetric,
        window_ms: None,
    }
}

fn build(f: LayoutFile) -> StateMachine {
    let layout = Layout::from_file(&f).expect("layout compiles");
    assert!(StateMachine::accepts_layout(&layout));
    StateMachine::new(layout)
}

/// Tsuki-style layout: single keys plus a prefix layer on `d`.
fn tsuki() -> StateMachine {
    let mut f = file(LayoutMode::Kana);
    f.layer.push(layer("base", LayerKind::Single, None, None, ". . . . .\n. q w a d\n1 そ こ は ＜\n"));
    f.layer.push(layer("prefix_d", LayerKind::Prefix, Some("d"), None, ". .\n. w\n1 ひ\n"));
    build(f)
}

/// Shin-geta-style layout: a timed chord on f+j.
fn shin_geta() -> StateMachine {
    let mut f = file(LayoutMode::Kana);
    f.layer.push(layer("base", LayerKind::Single, None, None, ". . . .\n. 1 f j\n1 ぁ き い\n"));
    f.chord.push(chord(&["f", "j"], "を", false));
    build(f)
}

/// Naginata-style layout: a mutual chord on f+j and a centre shift on space.
fn naginata() -> StateMachine {
    let mut f = file(LayoutMode::Kana);
    f.modifier.push(ModifierDef {
        id: "center".to_string(),
        key: "space".to_string(),
        kind: ModifierKind::Hold,
        hold_detection: HoldDetection::Interrupt,
        hold_timeout_ms: 200,
        tap_action: TapAction::Passthrough,
        tap_output: None,
    });
    f.layer.push(layer("base", LayerKind::Single, None, None, ". . . . .\n. j f q w\n1 あ か ば き\n"));
    f.layer.push(layer("center_shift", LayerKind::Modified, None, Some("center"), ". . .\n. q w\n1 ぁ め\n"));
    f.chord.push(chord(&["f", "j"], "が", true));
    build(f)
}

/// T-code-style layout: two-stroke direct input.
fn t_code() -> StateMachine {
    let mut f = file(LayoutMode::Kanchoku);
    f.direct.push(DirectRule { sequence: vec!["k".to_string(), "j".to_string()], output: "日".to_string() });
    f.direct.push(DirectRule { sequence: vec!["j".to_string(), "k".to_string()], output: "本".to_string() });
    build(f)
}

fn modifier_key_layout(output: &str) -> StateMachine {
    let mut f = file(LayoutMode::Kana);
    f.layer.push(layer("base", LayerKind::Single, None, None, &format!(". 1\n. q\n1 {output}\n")));
    build(f)
}

fn press_seq(sm: &mut StateMachine, keys: &[&str]) -> Vec<OutputAction> {
    keys.iter().flat_map(|k| sm.process(InputEvent::down(k), 1000)).collect()
}

// ── Single keys ──────────────────────────────────────────────────────────────

#[test]
fn number_row_key_sends_kana() {
    let mut m = shin_geta();
    let actions = press_seq(&mut m, &["1"]);
    assert!(actions.contains(&OutputAction::SendKana("ぁ".to_string())));
}

#[test]
fn single_key_base_layer() {
    let mut m = tsuki();
    let actions = press_seq(&mut m, &["q"]);
    assert_eq!(actions, vec![OutputAction::SendKana("そ".to_string())]);
    assert_eq!(m.tentative_kana_string(), "そ");
}

#[test]
fn single_key_home_row() {
    let mut m = tsuki();
    let actions = press_seq(&mut m, &["a"]);
    assert!(actions.contains(&OutputAction::SendKana("は".to_string())));
}

// ── Prefix shift ─────────────────────────────────────────────────────────────

#[test]
fn prefix_shift_resolves() {
    let mut m = tsuki();
    let actions = press_seq(&mut m, &["d", "w"]);
    assert!(actions.contains(&OutputAction::Backspace));
    assert_ne!(m.tentative_kana_string(), "＜");
}

#[test]
fn prefix_trigger_alone_stays_base() {
    let mut m = tsuki();
    let actions = press_seq(&mut m, &["d"]);
    assert!(actions.contains(&OutputAction::SendKana("＜".to_string())));
}

// ── Chords ───────────────────────────────────────────────────────────────────

#[test]
fn chord_rewrite() {
    let mut m = shin_geta();
    let a1 = m.process(InputEvent::down("f"), 1000);
    assert!(a1.contains(&OutputAction::SendKana("き".to_string())));
    let a2 = m.process(InputEvent::down("j"), 1000);
    assert!(a2.contains(&OutputAction::Backspace));
    assert!(a2.contains(&OutputAction::SendKana("を".to_string())));
    assert_eq!(m.tentative_kana_string(), "を");
}

#[test]
fn chord_symmetric_either_order() {
    let mut m = naginata();
    let a1 = m.process(InputEvent::down("j"), 1000);
    assert!(!a1.is_empty());
    let a2 = m.process(InputEvent::down("f"), 1000);
    assert!(a2.contains(&OutputAction::Backspace));
    assert!(a2.contains(&OutputAction::SendKana("が".to_string())));
}

// ── Kanchoku ─────────────────────────────────────────────────────────────────

#[test]
fn kanchoku_two_stroke() {
    let mut m = t_code();
    let actions = press_seq(&mut m, &["k", "j"]);
    assert!(actions.contains(&OutputAction::CommitDirect("日".to_string())));
    assert_eq!(m.tentative_kana_string(), "");
}

#[test]
fn kanchoku_no_partial_display() {
    let mut m = t_code();
    let a1 = m.process(InputEvent::down("k"), 1000);
    assert!(a1.is_empty(), "kanchoku first stroke must be silent: {a1:?}");
    let a2 = m.process(InputEvent::down("j"), 1000);
    assert!(a2.contains(&OutputAction::CommitDirect("日".to_string())));
}

#[test]
fn kanchoku_invalid_sequence_discarded() {
    let mut m = t_code();
    let actions = press_seq(&mut m, &["k", "z"]);
    assert!(!actions.iter().any(|a| matches!(a, OutputAction::CommitDirect(_))));
}

// ── BackSpace ────────────────────────────────────────────────────────────────

#[test]
fn backspace_pops_tentative() {
    let mut m = tsuki();
    m.process(InputEvent::down("q"), 1000);
    m.process(InputEvent::down("w"), 1000);
    assert_eq!(m.tentative_kana_string(), "そこ");
    let bs = m.process(InputEvent::down("bs"), 1000);
    assert!(bs.contains(&OutputAction::Backspace));
    assert_eq!(m.tentative_kana_string(), "そ");
}

#[test]
fn backspace_with_pending_only_no_external_bs() {
    let mut m = tsuki();
    m.process(InputEvent::down("d"), 1000);
    m.process(InputEvent::down("bs"), 1000);
    let bs = m.process(InputEvent::down("bs"), 1000);
    assert!(bs.contains(&OutputAction::Backspace));
}

// ── Centre shift ─────────────────────────────────────────────────────────────

#[test]
fn center_shift_modifier_layer() {
    let mut m = naginata();
    m.process(InputEvent::down("space"), 1000);
    let a = m.process(InputEvent::down("w"), 1000);
    assert!(a.contains(&OutputAction::SendKana("め".to_string())));
}

#[test]
fn reset_clears_modifier_state() {
    let mut m = naginata();
    m.process(InputEvent::down("space"), 1000);
    m.reset();
    let a = m.process(InputEvent::down("q"), 1000);
    assert!(!a.contains(&OutputAction::SendKana("ぁ".to_string())));
}

// ── Modifier-key tokens ──────────────────────────────────────────────────────

#[test]
fn modified_key_ctrl_z() {
    let mut m = modifier_key_layout("C-z");
    let actions = press_seq(&mut m, &["q"]);
    assert!(
        actions.contains(&OutputAction::SendModifiedKey { key: "z".to_string(), mods: MOD_CTRL }),
        "expected SendModifiedKey for C-z, got {actions:?}"
    );
}

#[test]
fn modified_key_shift_up() {
    let mut m = modifier_key_layout("S-!Up");
    let actions = press_seq(&mut m, &["q"]);
    assert!(
        actions.contains(&OutputAction::SendModifiedKey { key: "Up".to_string(), mods: MOD_SHIFT }),
        "expected SendModifiedKey for S-!Up, got {actions:?}"
    );
}

#[test]
fn modified_key_shift_ctrl_s() {
    let mut m = modifier_key_layout("S-C-s");
    let actions = press_seq(&mut m, &["q"]);
    assert!(
        actions.contains(&OutputAction::SendModifiedKey { key: "s".to_string(), mods: MOD_SHIFT | MOD_CTRL }),
        "expected SendModifiedKey for S-C-s, got {actions:?}"
    );
}

#[test]
fn modified_key_not_in_tentative() {
    let mut m = modifier_key_layout("C-z");
    press_seq(&mut m, &["q"]);
    assert!(m.tentative_kana_string().is_empty(), "modifier key output must not enter the tentative buffer");
}

#[test]
fn modified_key_in_alias() {
    let mut f = file(LayoutMode::Kana);
    f.layer.push(layer("base", LayerKind::Single, None, None, ". 1\n. q\n1 save\n"));
    f.alias.push(vec![("save".to_string(), "S-C-s".to_string())]);
    let mut m = build(f);
    let actions = press_seq(&mut m, &["q"]);
    assert!(
        actions.contains(&OutputAction::SendModifiedKey { key: "s".to_string(), mods: MOD_SHIFT | MOD_CTRL }),
        "alias containing modifier key token must expand correctly, got {actions:?}"
    );
}

// ── Laws on concrete values ──────────────────────────────────────────────────

#[test]
fn repeated_key_event_is_ignored() {
    let mut m = tsuki();
    let mut ev = InputEvent::down("q");
    ev.is_repeat = true;
    assert!(m.process(ev, 1000).is_empty());
    assert_eq!(m.tentative_kana_string(), "");
}

#[test]
fn backspace_with_nothing_buffered_is_forwarded() {
    let mut m = tsuki();
    assert_eq!(m.process(InputEvent::down("BackSpace"), 1000), vec![OutputAction::Backspace]);
}

#[test]
fn reset_sends_one_backspace_per_tentative_char() {
    let mut m = tsuki();
    press_seq(&mut m, &["q", "w", "a"]);
    assert_eq!(m.reset(), vec![OutputAction::Backspace; 3]);
    assert_eq!(m.tentative_kana_string(), "");
    assert!(m.reset().is_empty());
}

#[test]
fn tick_before_chord_deadline_does_nothing() {
    let mut m = shin_geta();
    m.process(InputEvent::down("f"), 1000);
    assert!(m.tick(1010).is_empty());
    assert_eq!(m.tentative_kana_string(), "き");
    // At the deadline the character is confirmed; it had no deferred tail.
    assert!(m.tick(1000 + 50).is_empty());
    assert_eq!(m.tentative_kana_string(), "き");
}

#[test]
fn chord_rewrite_balances_backspaces() {
    let mut m = shin_geta();
    m.process(InputEvent::down("1"), 1000);
    m.process(InputEvent::down("f"), 1000);
    let a = m.process(InputEvent::down("j"), 1000);
    assert_eq!(a, vec![OutputAction::Backspace, OutputAction::SendKana("を".to_string())]);
    assert_eq!(m.tentative_kana_string(), "ぁを");
}

#[test]
fn unassigned_key_passes_through_when_not_composing() {
    let mut m = tsuki();
    assert_eq!(m.process(InputEvent::down("x"), 1000), vec![OutputAction::Passthrough("x".to_string())]);
}

#[test]
fn unassigned_key_during_composition_submits_then_passes_through() {
    let mut m = tsuki();
    m.process(InputEvent::down("q"), 1000);
    assert_eq!(
        m.process(InputEvent::down("x"), 1000),
        vec![OutputAction::SubmitThenPassthrough("x".to_string())]
    );
    assert_eq!(m.tentative_kana_string(), "");
}

#[test]
fn control_key_during_composition_goes_to_mozc() {
    let mut m = tsuki();
    m.process(InputEvent::down("q"), 1000);
    assert_eq!(
        m.process(InputEvent::down("Return"), 1000),
        vec![OutputAction::SendFunctionKey("Return".to_string())]
    );
}

#[test]
fn conversion_notice_clears_tentative() {
    let mut m = tsuki();
    press_seq(&mut m, &["q", "w"]);
    m.notify_mozc_conversion();
    assert_eq!(m.tentative_kana_string(), "");
    m.notify_mozc_composition();
    assert_eq!(press_seq(&mut m, &["q"]), vec![OutputAction::SendKana("そ".to_string())]);
}

#[test]
fn modifier_tap_passes_key_through() {
    let mut m = naginata();
    m.process(InputEvent::down("space"), 1000);
    assert_eq!(m.process(InputEvent::up("space"), 1000), vec![OutputAction::Passthrough("space".to_string())]);
}

#[test]
fn direct_mode_reported_for_kanchoku_layout() {
    assert!(t_code().is_direct_active());
    assert!(!tsuki().is_direct_active());
}

#[test]
fn layout_with_empty_base_output_is_refused() {
    let mut f = file(LayoutMode::Kana);
    f.layer.push(layer("base", LayerKind::Single, None, None, ". .\n. q\n1 \" \"\n"));
    let layout = Layout::from_file(&f).expect("layout compiles");
    assert!(!StateMachine::accepts_layout(&layout));
}

#[test]
fn settings_are_those_of_the_layout() {
    let m = tsuki();
    assert_eq!(m.settings(), Settings::default());
}

// ── Chord rewriting across keys held and released ────────────────────────────

fn yoon_layout(chords: &[(&[&str], &str)]) -> StateMachine {
    let mut f = file(LayoutMode::Kana);
    f.layer.push(layer("base", LayerKind::Single, None, None, ". . . .\n. w h j\n1 き く あ\n"));
    for (keys, out) in chords {
        f.chord.push(chord(keys, out, true));
    }
    build(f)
}

#[test]
fn mutual_chord_upgrades_to_longer_chord() {
    let mut m = yoon_layout(&[(&["w", "h"], "きゃ"), (&["w", "h", "j"], "ぎゃ")]);
    assert_eq!(m.process(InputEvent::down("w"), 1000), vec![OutputAction::SendKana("き".to_string())]);
    assert_eq!(
        m.process(InputEvent::down("h"), 1000),
        vec![OutputAction::Backspace, OutputAction::SendKana("きゃ".to_string())]
    );
    // Both characters of きゃ are erased before ぎゃ is sent.
    assert_eq!(
        m.process(InputEvent::down("j"), 1000),
        vec![OutputAction::Backspace, OutputAction::Backspace, OutputAction::SendKana("ぎゃ".to_string())]
    );
    assert_eq!(m.tentative_kana_string(), "ぎゃ");
}

#[test]
fn longest_mutual_chord_wins() {
    let mut m = yoon_layout(&[(&["h", "j"], "ひ"), (&["w", "h", "j"], "ぎゃ")]);
    m.process(InputEvent::down("w"), 1000);
    m.process(InputEvent::down("h"), 1000);
    assert_eq!(m.tentative_kana_string(), "きく");
    let a = m.process(InputEvent::down("j"), 1000);
    assert_eq!(
        a,
        vec![OutputAction::Backspace, OutputAction::Backspace, OutputAction::SendKana("ぎゃ".to_string())]
    );
    assert_eq!(m.tentative_kana_string(), "ぎゃ");
}

#[test]
fn chord_spares_characters_of_released_keys() {
    let mut f = file(LayoutMode::Kana);
    f.layer.push(layer("base", LayerKind::Single, None, None, ". . .\n. j f\n1 あ か\n"));
    f.chord.push(chord(&["f", "j"], "が", false));
    let mut m = build(f);
    m.process(InputEvent::down("j"), 1000);
    m.process(InputEvent::up("j"), 1000);
    // あ was confirmed when j went up: the chord adds が without erasing it.
    assert_eq!(m.process(InputEvent::down("f"), 1000), vec![OutputAction::SendKana("が".to_string())]);
    assert_eq!(m.tentative_kana_string(), "あが");
}

#[test]
fn backspace_erases_every_character_of_a_kana() {
    let mut m = modifier_key_layout("きゃ");
    assert_eq!(press_seq(&mut m, &["q"]), vec![OutputAction::SendKana("きゃ".to_string())]);
    assert_eq!(m.process(InputEvent::down("BackSpace"), 1000), vec![OutputAction::Backspace; 2]);
    assert_eq!(m.tentative_kana_string(), "");
}

#[test]
fn auto_repeat_of_a_held_key_is_ignored() {
    let mut m = tsuki();
    assert_eq!(m.process(InputEvent::down("q"), 1000), vec![OutputAction::SendKana("そ".to_string())]);
    assert!(m.process(InputEvent::down("q"), 1030).is_empty());
    m.process(InputEvent::up("q"), 1040);
    assert_eq!(m.process(InputEvent::down("q"), 1050), vec![OutputAction::SendKana("そ".to_string())]);
    assert_eq!(m.tentative_kana_string(), "そそ");
}

#[test]
fn chord_window_closes_at_tick() {
    let mut m = shin_geta();
    m.process(InputEvent::down("f"), 1000);
    m.process(InputEvent::up("f"), 1010);
    assert!(m.tick(1100).is_empty());
    // f's chord window closed: j is typed on its own.
    assert_eq!(m.process(InputEvent::down("j"), 1100), vec![OutputAction::SendKana("い".to_string())]);
    assert_eq!(m.tentative_kana_string(), "きい");
}

#[test]
fn control_key_during_conversion_goes_on_converting() {
    let mut m = tsuki();
    press_seq(&mut m, &["q", "w"]);
    m.notify_mozc_conversion();
    assert_eq!(
        m.process(InputEvent::down("space"), 1000),
        vec![OutputAction::SendFunctionKey("space".to_string())]
    );
    // A kana key starts a fresh composition.
    assert_eq!(m.process(InputEvent::down("q"), 1000), vec![OutputAction::SendKana("そ".to_string())]);
    assert_eq!(m.tentative_kana_string(), "そ");
}
