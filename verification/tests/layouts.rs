//! Layout compilation and the behaviour of small layouts, each written out
//! as the `LayoutFile` value its TOML text deserialises to.
use mzkana_core::config::{
    ChordRule, DirectRule, DirectTriggerDef, HoldDetection, LayerDef, LayerKind, Layout, LayoutFile, LayoutMode,
    Meta, ModifierDef, ModifierKind, Settings, TapAction, TriggerKind,
};
use mzkana_core::error::ConfigError;
use mzkana_core::statemachine::{InputEvent, OutputAction, StateMachine};

const NOW: u64 = 1000;

// ── Builders (serde defaults of the TOML format) ─────────────────────────────

fn file(name: &str, mode: LayoutMode) -> LayoutFile {
    LayoutFile {
        meta: Meta { name: name.to_string(), version: "1".to_string(), author: String::new(), mode, schema: 1 },
        settings: Settings::default(),
        modifier: Vec::new(),
        direct_trigger: None,
        layer: Vec::new(),
        chord: Vec::new(),
        direct: Vec::new(),
        alias: Vec::new(),
    }
}

fn base(grid: &str) -> LayerDef {
    LayerDef { id: "base".to_string(), kind: LayerKind::Single, trigger: None, modifier: None, grid: grid.to_string() }
}

fn prefix(id: &str, trigger: &str, grid: &str) -> LayerDef {
    LayerDef {
        id: id.to_string(),
        kind: LayerKind::Prefix,
        trigger: Some(trigger.to_string()),
        modifier: None,
        grid: grid.to_string(),
    }
}

fn modified(id: &str, modifier: &str, grid: &str) -> LayerDef {
    LayerDef {
        id: id.to_string(),
        kind: LayerKind::Modified,
        trigger: None,
        modifier: Some(modifier.to_string()),
        grid: grid.to_string(),
    }
}

/// A `[[modifier]]` table with the given fields and the format's defaults
/// (`kind = "hold"`, `hold_detection = "interrupt"`, 150 ms, `passthrough`).
fn modifier(id: &str, key: &str) -> ModifierDef {
    ModifierDef {
        id: id.to_string(),
        key: key.to_string(),
        kind: ModifierKind::Hold,
        hold_detection: HoldDetection::Interrupt,
        hold_timeout_ms: 150,
        tap_action: TapAction::Passthrough,
        tap_output: None,
    }
}

/// A `[direct_trigger]` table with the format's defaults.
fn direct_trigger(keys: &[&str]) -> DirectTriggerDef {
    DirectTriggerDef {
        keys: keys.iter().map(|s| s.to_string()).collect(),
        kind: TriggerKind::Hold,
        hold_detection: HoldDetection::Interrupt,
        hold_timeout_ms: 150,
        tap_action: TapAction::Passthrough,
    }
}

fn chord(keys: &[&str], output: &str, symmetric: bool, window_ms: Option<u32>) -> ChordRule {
    ChordRule { keys: keys.iter().map(|s| s.to_string()).collect(), output: output.to_string(), symmetric, window_ms }
}

fn direct(sequence: &[&str], output: &str) -> DirectRule {
    DirectRule { sequence: sequence.iter().map(|s| s.to_string()).collect(), output: output.to_string() }
}

fn alias(entries: &[(&str, &str)]) -> Vec<(String, String)> {
    entries.iter().map(|(k, v)| (k.to_string(), v.to_string())).collect()
}

fn load(f: &LayoutFile) -> Layout {
    match Layout::from_file(f) {
        Ok(l) => l,
        Err(e) => panic!("layout should load: {}", e.message()),
    }
}

fn load_err(f: &LayoutFile) -> ConfigError {
    match Layout::from_file(f) {
        Ok(_) => panic!("layout should be refused"),
        Err(e) => e,
    }
}

fn machine(f: &LayoutFile) -> StateMachine {
    let layout = load(f);
    assert!(StateMachine::accepts_layout(&layout));
    StateMachine::new(layout)
}

fn base_get(l: &Layout, key: &str) -> Option<String> {
    l.base_layer.get(key).cloned()
}

// ── Fixtures standing for the sample layout files ────────────────────────────

/// Tsuki 2-263 style: the home and top rows and a prefix layer on `d`.
fn tsuki_file() -> LayoutFile {
    let mut f = file("月配列2-263式", LayoutMode::Kana);
    f.layer.push(base(". . q w e r t y u i o p\n1 ＿ そ こ し て ょ つ ん い の り\n2 ＿ は か ＿ と た く う ＿ ゛ き\n"));
    f.layer.push(prefix("prefix_d", "d", ". . q w\n1 ＿ ぁ ひ\n"));
    f
}

/// Shin-geta style: number row including `yen`, a top row, and thirteen chords.
fn shin_geta_file() -> LayoutFile {
    let mut f = file("新下駄配列", LayoutMode::Kana);
    f.layer.push(base(
        ". 1 2 3 4 5 6 7 8 9 0 - ^ \\\n0 ぁ ぃ ぅ ぇ ぉ ゃ ゅ ょ ゎ ＿ ＿ ＿ ゛\n1 ＿ た\n",
    ));
    let pairs = [
        ("w", "i", "を"),
        ("e", "i", "り"),
        ("r", "i", "ら"),
        ("w", "o", "ご"),
        ("e", "o", "ぐ"),
        ("r", "o", "づ"),
        ("w", "p", "ぴ"),
        ("e", "p", "げ"),
        ("r", "p", "ぜ"),
        ("f", "j", "あ"),
        ("f", "k", "い"),
        ("f", "l", "う"),
        ("d", "j", "え"),
    ];
    for (a, b, out) in pairs {
        f.chord.push(chord(&[a, b], out, false, None));
    }
    f
}

/// T-code style: thirteen two-stroke direct rules.
fn t_code_file() -> LayoutFile {
    let mut f = file("T-code", LayoutMode::Kanchoku);
    let rules = [
        ("k", "j", "日"),
        ("j", "k", "本"),
        ("d", "f", "の"),
        ("f", "d", "一"),
        ("s", "l", "人"),
        ("l", "s", "大"),
        ("a", "g", "年"),
        ("g", "a", "出"),
        ("q", "p", "中"),
        ("p", "q", "国"),
        ("w", "o", "上"),
        ("o", "w", "下"),
        ("e", "i", "分"),
    ];
    for (a, b, out) in rules {
        f.direct.push(direct(&[a, b], out));
    }
    f
}

// ── Config loading ───────────────────────────────────────────────────────────

#[test]
fn load_tsuki() {
    let l = load(&tsuki_file());
    assert_eq!(l.meta.name, "月配列2-263式");
    assert!(!l.base_layer.is_empty());
    assert!(!l.prefix_layers.is_empty());
}

#[test]
fn load_shin_geta() {
    let l = load(&shin_geta_file());
    assert_eq!(l.chords.len(), 13);
}

#[test]
fn load_t_code() {
    let l = load(&t_code_file());
    assert_eq!(l.directs.len(), 13);
}

// ── Grid parsing ─────────────────────────────────────────────────────────────

#[test]
fn grid_number_row_mapping() {
    let l = load(&shin_geta_file());
    assert_eq!(base_get(&l, "1").as_deref(), Some("ぁ"));
    assert_eq!(base_get(&l, "6").as_deref(), Some("ゃ"));
    assert_eq!(base_get(&l, "q").as_deref(), Some("た"));
}

#[test]
fn yen_key_mapping() {
    let l = load(&shin_geta_file());
    assert_eq!(base_get(&l, "yen").as_deref(), Some("゛"));
}

#[test]
fn grid_row_mapping() {
    let l = load(&tsuki_file());
    assert_eq!(base_get(&l, "q").as_deref(), Some("そ"));
    assert_eq!(base_get(&l, "a").as_deref(), Some("は"));
    assert_eq!(base_get(&l, "s").as_deref(), Some("か"));
}

#[test]
fn extended_keys_in_numbered_rows() {
    let mut f = file("ext", LayoutMode::Kanchoku);
    let grid = [
        ". c0 c1 c2 c3 c4 c5 c6 c7 c8 c9 c10 c11 c12 c13",
        "1  あ い う え お か き く け こ さ  し  す  せ",
        "2  た ち つ て と な に ぬ ね の は  ひ  ＿  ＿",
        "3  ま み む め も や ゆ よ ら り る  ろ  ＿  ＿",
    ]
    .join("\n");
    f.layer.push(base(&grid));
    let l = load(&f);
    assert_eq!(base_get(&l, "tab").as_deref(), Some("あ"));
    assert_eq!(base_get(&l, "q").as_deref(), Some("い"));
    assert_eq!(base_get(&l, "bracketleft").as_deref(), Some("し"));
    assert_eq!(base_get(&l, "bracketright").as_deref(), Some("す"));
    assert_eq!(base_get(&l, "backslash").as_deref(), Some("せ"));
    assert_eq!(base_get(&l, "caps_lock").as_deref(), Some("た"));
    assert_eq!(base_get(&l, "a").as_deref(), Some("ち"));
    assert_eq!(base_get(&l, "quote").as_deref(), Some("ひ"));
    assert_eq!(base_get(&l, "lshift").as_deref(), Some("ま"));
    assert_eq!(base_get(&l, "z").as_deref(), Some("み"));
    assert_eq!(base_get(&l, "intlro").as_deref(), Some("ろ"));
}

// ── XX passthrough cell ──────────────────────────────────────────────────────

#[test]
fn xx_cell_base_layer_emits_passthrough() {
    let mut f = file("xx-test", LayoutMode::Kana);
    f.layer.push(base(". . q w\n1 ＿ あ XX\n"));
    let mut m = machine(&f);
    let a = m.process(InputEvent::down("q"), NOW);
    assert!(a.contains(&OutputAction::SendKana("あ".to_string())), "{a:?}");
    let b = m.process(InputEvent::down("w"), NOW);
    assert!(b.contains(&OutputAction::Passthrough("w".to_string())), "{b:?}");
    assert!(!b.iter().any(|x| matches!(x, OutputAction::SendKana(_))), "{b:?}");
}

#[test]
fn xx_cell_modified_layer_emits_passthrough() {
    let mut f = file("xx-mod", LayoutMode::Kana);
    f.modifier.push(modifier("m", "space"));
    f.layer.push(base(". . q\n1 ＿ あ\n"));
    f.layer.push(modified("shifted", "m", ". . q\n1 ＿ XX\n"));
    let mut m = machine(&f);
    m.process(InputEvent::down("space"), NOW);
    let a = m.process(InputEvent::down("q"), NOW);
    assert!(a.contains(&OutputAction::Passthrough("q".to_string())), "{a:?}");
    assert!(!a.iter().any(|x| matches!(x, OutputAction::SendKana(_))), "{a:?}");
}

// ── Mutual and timed chords ──────────────────────────────────────────────────

fn mutual_chord_file() -> LayoutFile {
    let mut f = file("mutual-test", LayoutMode::Kana);
    f.layer.push(base(". .  q  w  e  r  t  y  u\n1 ＿ ＿ ＿ ＿ る ＿ ＿ す\n"));
    f.chord.push(chord(&["f", "j"], "が", true, None));
    f.chord.push(chord(&["e", "j"], "で", true, None));
    f.chord.push(chord(&["r", "u"], "だ", false, None));
    f
}

#[test]
fn mutual_chord_fires_on_overlap() {
    let mut m = machine(&mutual_chord_file());
    let a1 = m.process(InputEvent::down("j"), NOW);
    assert!(a1.is_empty(), "j alone should produce no output: {a1:?}");
    let a2 = m.process(InputEvent::down("f"), NOW);
    assert!(a2.contains(&OutputAction::SendKana("が".to_string())), "{a2:?}");
    assert_eq!(m.tentative_kana_string(), "が");
}

#[test]
fn mutual_chord_rollover() {
    let mut m = machine(&mutual_chord_file());
    m.process(InputEvent::down("j"), NOW);
    let a_fg = m.process(InputEvent::down("f"), NOW);
    assert!(a_fg.contains(&OutputAction::SendKana("が".to_string())), "{a_fg:?}");
    m.process(InputEvent::up("f"), NOW);
    let a_ej = m.process(InputEvent::down("e"), NOW);
    assert!(a_ej.contains(&OutputAction::SendKana("で".to_string())), "rollover should fire (e,j): {a_ej:?}");
    assert!(!a_ej.contains(&OutputAction::Backspace), "「が」must not be overwritten: {a_ej:?}");
    assert_eq!(m.tentative_kana_string(), "がで");
}

#[test]
fn mutual_chord_no_timeout_after_window() {
    let mut m = machine(&mutual_chord_file());
    m.process(InputEvent::down("j"), NOW);
    let a = m.process(InputEvent::down("f"), NOW + 500);
    assert!(a.contains(&OutputAction::SendKana("が".to_string())), "mutual chord must fire regardless of timing: {a:?}");
}

#[test]
fn timed_chord_reverse_order_allowed() {
    let mut m = machine(&mutual_chord_file());
    let a1 = m.process(InputEvent::down("u"), NOW);
    assert!(a1.contains(&OutputAction::SendKana("す".to_string())), "u speculative: {a1:?}");
    let a2 = m.process(InputEvent::down("r"), NOW);
    assert!(a2.contains(&OutputAction::Backspace), "{a2:?}");
    assert!(a2.contains(&OutputAction::SendKana("だ".to_string())), "reverse-order timed chord: {a2:?}");
}

// ── Conflict detection ───────────────────────────────────────────────────────

#[test]
fn duplicate_direct_rules_error() {
    let mut f = file("test", LayoutMode::Kanchoku);
    f.direct.push(direct(&["a", "b"], "X"));
    f.direct.push(direct(&["a", "b"], "Y"));
    assert!(Layout::from_file(&f).is_err());
}

#[test]
fn duplicate_direct_same_output_ok() {
    let mut f = file("test", LayoutMode::Kanchoku);
    f.direct.push(direct(&["a", "b"], "X"));
    f.direct.push(direct(&["a", "b"], "X"));
    assert!(Layout::from_file(&f).is_ok());
}

#[test]
fn unknown_row_label_is_error() {
    let mut f = file("test", LayoutMode::Kana);
    f.layer.push(base(". q w\nr1 あ い\n"));
    let err = load_err(&f);
    assert!(err.message().contains("r1"), "error should mention the bad label");
}

// ── Function keys ────────────────────────────────────────────────────────────

#[test]
fn function_key_in_chord() {
    let mut f = file("test", LayoutMode::Kana);
    f.layer.push(base(". . q w\n1 ＿ あ い\n"));
    f.chord.push(chord(&["q", "w"], "!Return", false, None));
    let mut m = machine(&f);
    m.process(InputEvent::down("q"), NOW);
    let actions = m.process(InputEvent::down("w"), NOW);
    assert!(
        actions.contains(&OutputAction::SendFunctionKey("Return".to_string())),
        "chord !Return should produce SendFunctionKey: {actions:?}"
    );
    assert_eq!(m.tentative_kana_string(), "");
}

#[test]
fn function_key_in_base_layer() {
    let mut f = file("test", LayoutMode::Kana);
    f.layer.push(base(". . q w\n1 ＿ あ !Tab\n"));
    let mut m = machine(&f);
    let actions = m.process(InputEvent::down("w"), NOW);
    assert!(actions.contains(&OutputAction::SendFunctionKey("Tab".to_string())), "{actions:?}");
    assert_eq!(m.tentative_kana_string(), "");
}

#[test]
fn invalid_function_key_name_is_error() {
    let mut f = file("test", LayoutMode::Kana);
    f.chord.push(chord(&["a", "b"], "!SuperFakeKey", false, None));
    assert!(Layout::from_file(&f).is_err());
}

#[test]
fn invalid_function_key_in_multi_token_output_is_error() {
    let mut f = file("test", LayoutMode::Kana);
    f.layer.push(base(". . q\n1 ＿ \"、 !SuperFakeKey\"\n"));
    assert!(Layout::from_file(&f).is_err());
}

#[test]
fn invalid_function_key_in_alias_is_error() {
    let mut f = file("test", LayoutMode::Kana);
    f.alias.push(alias(&[("bad_alias", "、 !SuperFakeKey")]));
    assert!(Layout::from_file(&f).is_err());
}

#[test]
fn empty_alias_sequence_is_error() {
    let mut f = file("test", LayoutMode::Kana);
    f.alias.push(alias(&[("empty_alias", "")]));
    let err = load_err(&f);
    let text = err.message();
    assert!(text.contains("empty_alias"), "error should mention the alias name: {text}");
}

#[test]
fn modified_key_invalid_function_key_rejected() {
    let mut f = file("test", LayoutMode::Kana);
    f.layer.push(base(". 1\n. q\n1 C-!BadKey\n"));
    assert!(
        Layout::from_file(&f).is_err(),
        "layout with unknown function key after modifier prefix must fail to load"
    );
}

// ── Direct trigger ───────────────────────────────────────────────────────────

#[test]
fn direct_trigger_tap_returns_passthrough() {
    let mut f = file("test", LayoutMode::Hybrid);
    f.direct_trigger = Some(direct_trigger(&["henkan"]));
    f.direct.push(direct(&["a", "b"], "日"));
    let mut m = machine(&f);
    m.process(InputEvent::down("henkan"), NOW);
    let actions = m.process(InputEvent::up("henkan"), NOW);
    assert!(
        actions.contains(&OutputAction::Passthrough("henkan".to_string())),
        "tap should produce passthrough: {actions:?}"
    );
}

#[test]
fn direct_trigger_base_kana_tap_action_is_error() {
    let mut f = file("test", LayoutMode::Hybrid);
    let mut t = direct_trigger(&["henkan"]);
    t.tap_action = TapAction::BaseKana;
    f.direct_trigger = Some(t);
    assert!(Layout::from_file(&f).is_err());
}

#[test]
fn direct_trigger_output_tap_action_is_error() {
    // The TOML's `tap_output` key is not a field of `[direct_trigger]`.
    let mut f = file("test", LayoutMode::Hybrid);
    let mut t = direct_trigger(&["henkan"]);
    t.tap_action = TapAction::Output;
    f.direct_trigger = Some(t);
    assert!(Layout::from_file(&f).is_err());
}

// ── Aliases and quoted sequences ─────────────────────────────────────────────

#[test]
fn alias_single_key_no_chord_emits_all_tokens() {
    let mut f = file("test", LayoutMode::Kana);
    f.layer.push(base(". . q w\n1 ＿ ku_ret い\n"));
    f.alias.push(alias(&[("ku_ret", "、 !Return")]));
    let mut m = machine(&f);
    let actions = m.process(InputEvent::down("q"), NOW);
    assert!(actions.contains(&OutputAction::SendKana("、".to_string())), "should emit kana: {actions:?}");
    assert!(
        actions.contains(&OutputAction::SendFunctionKey("Return".to_string())),
        "should emit function key: {actions:?}"
    );
}

#[test]
fn quoted_cell_no_chord_emits_all_tokens() {
    let mut f = file("test", LayoutMode::Kana);
    f.layer.push(base(". . q\n1 ＿ \"。 !Return\"\n"));
    let mut m = machine(&f);
    let actions = m.process(InputEvent::down("q"), NOW);
    assert!(actions.contains(&OutputAction::SendKana("。".to_string())), "kana: {actions:?}");
    assert!(actions.contains(&OutputAction::SendFunctionKey("Return".to_string())), "fkey: {actions:?}");
}

fn alias_chord_file() -> LayoutFile {
    let mut f = file("test", LayoutMode::Kana);
    f.layer.push(base(". . q w\n1 ＿ ku_ret い\n"));
    f.chord.push(chord(&["q", "w"], "う", false, Some(50)));
    f.alias.push(alias(&[("ku_ret", "、 !Return")]));
    f
}

#[test]
fn alias_with_chord_candidate_defers_tail() {
    let mut m = machine(&alias_chord_file());
    let a1 = m.process(InputEvent::down("q"), NOW);
    assert!(a1.contains(&OutputAction::SendKana("、".to_string())), "speculative kana emitted: {a1:?}");
    assert!(
        !a1.contains(&OutputAction::SendFunctionKey("Return".to_string())),
        "tail must NOT be emitted yet: {a1:?}"
    );
    let tick_actions = m.tick(NOW + 100);
    assert!(
        tick_actions.contains(&OutputAction::SendFunctionKey("Return".to_string())),
        "tail emitted after deadline: {tick_actions:?}"
    );
}

#[test]
fn alias_chord_fires_no_double_emission() {
    let mut m = machine(&alias_chord_file());
    m.process(InputEvent::down("q"), NOW);
    let a2 = m.process(InputEvent::down("w"), NOW);
    assert!(a2.contains(&OutputAction::Backspace), "should rewrite speculative: {a2:?}");
    assert!(a2.contains(&OutputAction::SendKana("う".to_string())), "chord output: {a2:?}");
    assert!(
        !a2.contains(&OutputAction::SendFunctionKey("Return".to_string())),
        "tail must be discarded on rewrite: {a2:?}"
    );
    let tick_actions = m.tick(NOW + 100);
    assert!(
        !tick_actions.contains(&OutputAction::SendFunctionKey("Return".to_string())),
        "no tail after rewrite: {tick_actions:?}"
    );
}

// ── Dual-role modifier keys ──────────────────────────────────────────────────

fn dual_role_file(detection: HoldDetection) -> LayoutFile {
    let mut f = file("dual-role test", LayoutMode::Kana);
    let mut md = modifier("shift_f", "f");
    md.hold_detection = detection;
    md.tap_action = TapAction::BaseKana;
    f.modifier.push(md);
    f.layer.push(base(". .    a    s    d    f    g\n2 ＿   ＿   ＿   ＿   か   き\n"));
    f.layer.push(modified("shifted", "shift_f", ". .    a    s    d    f    g\n2 ＿   ＿   ＿   ＿   ＿   ぎ\n"));
    f
}

#[test]
fn dual_role_tap_emits_base_kana() {
    let mut m = machine(&dual_role_file(HoldDetection::Interrupt));
    m.process(InputEvent::down("f"), NOW);
    let actions = m.process(InputEvent::up("f"), NOW);
    assert!(actions.contains(&OutputAction::SendKana("か".to_string())), "tap should emit base kana: {actions:?}");
    assert_eq!(m.tentative_kana_string(), "か");
}

#[test]
fn dual_role_hold_emits_shifted_kana() {
    let mut m = machine(&dual_role_file(HoldDetection::Interrupt));
    m.process(InputEvent::down("f"), NOW);
    let actions = m.process(InputEvent::down("g"), NOW);
    assert!(
        actions.contains(&OutputAction::SendKana("ぎ".to_string())),
        "hold+key should emit shifted kana: {actions:?}"
    );
    assert_eq!(m.tentative_kana_string(), "ぎ");
    let up = m.process(InputEvent::up("f"), NOW);
    assert!(
        !up.contains(&OutputAction::SendKana("か".to_string())),
        "release after hold must not emit tap kana: {up:?}"
    );
}

#[test]
fn dual_role_timeout_tap_emits_base_kana() {
    let mut m = machine(&dual_role_file(HoldDetection::Timeout));
    m.process(InputEvent::down("f"), NOW);
    let actions = m.process(InputEvent::up("f"), NOW);
    assert!(actions.contains(&OutputAction::SendKana("か".to_string())), "quick tap should emit base kana: {actions:?}");
}

#[test]
fn dual_role_timeout_hold_emits_shifted_kana() {
    let mut m = machine(&dual_role_file(HoldDetection::Timeout));
    m.process(InputEvent::down("f"), NOW);
    let actions = m.process(InputEvent::down("g"), NOW + 200);
    assert!(
        actions.contains(&OutputAction::SendKana("ぎ".to_string())),
        "key pressed after timeout should use shifted layer: {actions:?}"
    );
}

#[test]
fn dual_role_key_in_chord_fires_chord_not_tap() {
    let mut m = machine(&dual_role_file(HoldDetection::Interrupt));
    m.process(InputEvent::down("f"), NOW);
    let a_g = m.process(InputEvent::down("g"), NOW);
    assert!(a_g.contains(&OutputAction::SendKana("ぎ".to_string())), "other key should emit from shifted layer: {a_g:?}");
    let a_up = m.process(InputEvent::up("f"), NOW);
    assert!(
        !a_up.contains(&OutputAction::SendKana("か".to_string())),
        "tap (base kana) must NOT fire after interrupted hold: {a_up:?}"
    );
}

#[test]
fn tentative_cleared_after_conversion_then_modifier_tap() {
    let mut m = machine(&dual_role_file(HoldDetection::Interrupt));
    m.process(InputEvent::down("g"), NOW);
    assert_eq!(m.tentative_kana_string(), "き");
    m.notify_mozc_conversion();
    assert_eq!(m.tentative_kana_string(), "");
    m.process(InputEvent::down("f"), NOW);
    m.process(InputEvent::up("f"), NOW);
    assert_eq!(m.tentative_kana_string(), "か", "no stale entries after conversion");
}

// ── Tap actions ──────────────────────────────────────────────────────────────

#[test]
fn send_key_is_alias_for_passthrough() {
    // `tap_action = "send_key"` deserialises to `Passthrough`.
    let mut f = file("test", LayoutMode::Kana);
    f.modifier.push(modifier("m", "space"));
    let mut m = machine(&f);
    m.process(InputEvent::down("space"), NOW);
    let actions = m.process(InputEvent::up("space"), NOW);
    assert!(
        actions.contains(&OutputAction::Passthrough("space".to_string())),
        "send_key tap should produce passthrough: {actions:?}"
    );
}

fn tap_output_file(tap_output: &str, with_alias: bool) -> LayoutFile {
    let mut f = file("test", LayoutMode::Kana);
    if with_alias {
        f.alias.push(alias(&[("ku_ret", "、 !Return")]));
    }
    let mut md = modifier("m", "space");
    md.tap_action = TapAction::Output;
    md.tap_output = Some(tap_output.to_string());
    f.modifier.push(md);
    f.layer.push(modified("shifted", "m", ". . q\n1 ＿ あ\n"));
    f
}

#[test]
fn tap_output_emits_specified_string() {
    let mut m = machine(&tap_output_file("　", false));
    m.process(InputEvent::down("space"), NOW);
    let actions = m.process(InputEvent::up("space"), NOW);
    assert!(
        actions.contains(&OutputAction::SendKana("　".to_string())),
        "tap_output should emit the specified string: {actions:?}"
    );
    assert_eq!(m.tentative_kana_string(), "　");
}

#[test]
fn tap_output_with_alias_resolves() {
    let mut m = machine(&tap_output_file("ku_ret", true));
    m.process(InputEvent::down("space"), NOW);
    let actions = m.process(InputEvent::up("space"), NOW);
    assert!(actions.contains(&OutputAction::SendKana("、".to_string())), "alias should expand: {actions:?}");
    assert!(
        actions.contains(&OutputAction::SendFunctionKey("Return".to_string())),
        "alias tail should emit: {actions:?}"
    );
}

#[test]
fn tap_output_missing_is_error() {
    let mut f = file("test", LayoutMode::Kana);
    let mut md = modifier("m", "space");
    md.tap_action = TapAction::Output;
    f.modifier.push(md);
    let text = load_err(&f).message();
    assert!(text.contains("tap_output"), "error should mention tap_output: {text}");
}

#[test]
fn tap_output_set_without_output_action_is_error() {
    let mut f = file("test", LayoutMode::Kana);
    let mut md = modifier("m", "space");
    md.tap_action = TapAction::NoAction;
    md.tap_output = Some("　".to_string());
    f.modifier.push(md);
    let text = load_err(&f).message();
    assert!(text.contains("tap_output"), "error should mention tap_output: {text}");
}

#[test]
fn base_kana_resolves_alias() {
    let mut f = file("test", LayoutMode::Kana);
    f.alias.push(alias(&[("ku_ret", "、 !Return")]));
    let mut md = modifier("m", "f");
    md.tap_action = TapAction::BaseKana;
    f.modifier.push(md);
    f.layer.push(base(". .    a    s    d    f\n2 ＿   ＿   ＿   ＿   ku_ret\n"));
    f.layer.push(modified("shifted", "m", ". .    a    s    d    f    g\n2 ＿   ＿   ＿   ＿   ＿   ぎ\n"));
    let mut m = machine(&f);
    m.process(InputEvent::down("f"), NOW);
    let actions = m.process(InputEvent::up("f"), NOW);
    assert!(
        actions.contains(&OutputAction::SendKana("、".to_string())),
        "base_kana alias should expand to kana: {actions:?}"
    );
    assert!(
        actions.contains(&OutputAction::SendFunctionKey("Return".to_string())),
        "base_kana alias should expand to function key: {actions:?}"
    );
}

// ── Toggle modifiers ─────────────────────────────────────────────────────────

fn toggle_file(base_grid: Option<&str>) -> LayoutFile {
    let mut f = file("test", LayoutMode::Kana);
    let mut md = modifier("caps", "caps_lock");
    md.kind = ModifierKind::Toggle;
    f.modifier.push(md);
    if let Some(g) = base_grid {
        f.layer.push(base(g));
    }
    f.layer.push(modified("shifted", "caps", ". . q\n1 ＿ あ\n"));
    f
}

fn tap(m: &mut StateMachine, key: &str) {
    m.process(InputEvent::down(key), NOW);
    m.process(InputEvent::up(key), NOW);
}

#[test]
fn toggle_modifier_activates_layer() {
    let mut m = machine(&toggle_file(None));
    tap(&mut m, "caps_lock");
    let actions = m.process(InputEvent::down("q"), NOW);
    assert!(actions.contains(&OutputAction::SendKana("あ".to_string())), "toggle ON: shifted layer active: {actions:?}");
}

#[test]
fn toggle_modifier_deactivates_on_second_press() {
    let mut m = machine(&toggle_file(Some(". . q\n1 ＿ い\n")));
    tap(&mut m, "caps_lock");
    tap(&mut m, "caps_lock");
    let actions = m.process(InputEvent::down("q"), NOW);
    assert!(actions.contains(&OutputAction::SendKana("い".to_string())), "toggle OFF: base layer active: {actions:?}");
    assert!(
        !actions.contains(&OutputAction::SendKana("あ".to_string())),
        "shifted layer must not be active: {actions:?}"
    );
}

#[test]
fn toggle_modifier_does_not_block_other_keys() {
    let mut m = machine(&toggle_file(Some(". .    q    w\n1 ＿   い   う\n")));
    tap(&mut m, "caps_lock");
    let a_q = m.process(InputEvent::down("q"), NOW);
    assert!(a_q.contains(&OutputAction::SendKana("あ".to_string())), "{a_q:?}");
    let a_w = m.process(InputEvent::down("w"), NOW);
    assert!(a_w.contains(&OutputAction::SendKana("う".to_string())), "{a_w:?}");
}

// ── Direct input with a trigger ──────────────────────────────────────────────

#[test]
fn direct_trigger_keeps_typed_kana_in_the_preedit() {
    let mut f = file("test", LayoutMode::Hybrid);
    f.direct_trigger = Some(direct_trigger(&["henkan"]));
    f.layer.push(base(". . q\n1 ＿ そ\n"));
    f.direct.push(direct(&["a", "b"], "日"));
    let mut m = machine(&f);
    assert_eq!(m.process(InputEvent::down("q"), NOW), vec![OutputAction::SendKana("そ".to_string())]);
    // Activation erases nothing; the kana is submitted before the kanji.
    assert!(m.process(InputEvent::down("henkan"), NOW).is_empty());
    assert_eq!(m.tentative_kana_string(), "");
    assert!(m.process(InputEvent::down("a"), NOW).is_empty());
    assert_eq!(
        m.process(InputEvent::down("b"), NOW),
        vec![OutputAction::MozcSubmit, OutputAction::CommitDirect("日".to_string())]
    );
}

// ── Hybrid layouts without a trigger ─────────────────────────────────────────

fn hybrid_without_trigger() -> LayoutFile {
    let mut f = file("test", LayoutMode::Hybrid);
    f.layer.push(base(". . q w e\n1 ＿ そ こ た\n"));
    f.direct.push(direct(&["a", "b"], "日"));
    f.direct.push(direct(&["q", "w"], "本"));
    f
}

#[test]
fn hybrid_without_trigger_keeps_kana_and_direct_rules() {
    let mut m = machine(&hybrid_without_trigger());
    assert_eq!(m.process(InputEvent::down("e"), NOW), vec![OutputAction::SendKana("た".to_string())]);
    m.process(InputEvent::up("e"), NOW);
    assert!(m.process(InputEvent::down("a"), NOW + 10).is_empty());
    // The kana stays in the preedit and is submitted before the kanji.
    assert_eq!(
        m.process(InputEvent::down("b"), NOW + 20),
        vec![OutputAction::MozcSubmit, OutputAction::CommitDirect("日".to_string())]
    );
    assert_eq!(m.tentative_kana_string(), "");
}

#[test]
fn hybrid_without_trigger_waits_on_a_shared_first_stroke() {
    let mut m = machine(&hybrid_without_trigger());
    // `q` is a kana key and the first stroke of a direct sequence: it waits.
    assert!(m.process(InputEvent::down("q"), NOW).is_empty());
    // Nothing stands in the preedit, so nothing is submitted.
    assert_eq!(m.process(InputEvent::down("w"), NOW + 10), vec![OutputAction::CommitDirect("本".to_string())]);
    m.process(InputEvent::up("q"), NOW + 20);
    m.process(InputEvent::up("w"), NOW + 20);
    // A stroke that continues no direct sequence is read as kana.
    assert!(m.process(InputEvent::down("q"), NOW + 30).is_empty());
    assert_eq!(m.process(InputEvent::down("e"), NOW + 40), vec![OutputAction::SendKana("た".to_string())]);
    assert_eq!(m.tentative_kana_string(), "た");
}

#[test]
fn hybrid_without_trigger_kana_wins_a_conflict() {
    let mut f = hybrid_without_trigger();
    f.chord.push(chord(&["q", "w"], "う", false, None));
    let mut m = machine(&f);
    assert!(m.process(InputEvent::down("q"), NOW).is_empty());
    assert_eq!(m.process(InputEvent::down("w"), NOW + 10), vec![OutputAction::SendKana("う".to_string())]);
    assert_eq!(m.tentative_kana_string(), "う");
}

#[test]
fn direct_commit_submits_only_kana_left_in_the_preedit() {
    let mut f = file("test", LayoutMode::Hybrid);
    f.direct_trigger = Some(direct_trigger(&["henkan"]));
    f.layer.push(base(". . q\n1 ＿ そ\n"));
    f.direct.push(direct(&["a", "b"], "日"));
    let mut m = machine(&f);
    // Nothing typed before: the kanji is committed alone.
    m.process(InputEvent::down("henkan"), NOW);
    assert!(m.process(InputEvent::down("a"), NOW).is_empty());
    assert_eq!(m.process(InputEvent::down("b"), NOW), vec![OutputAction::CommitDirect("日".to_string())]);
    m.process(InputEvent::up("a"), NOW);
    m.process(InputEvent::up("b"), NOW);
    m.process(InputEvent::up("henkan"), NOW);
    // Kana typed before activation are submitted once, before the next kanji.
    assert_eq!(m.process(InputEvent::down("q"), NOW + 100), vec![OutputAction::SendKana("そ".to_string())]);
    m.process(InputEvent::up("q"), NOW + 110);
    m.process(InputEvent::down("henkan"), NOW + 120);
    m.process(InputEvent::down("a"), NOW + 130);
    assert_eq!(
        m.process(InputEvent::down("b"), NOW + 140),
        vec![OutputAction::MozcSubmit, OutputAction::CommitDirect("日".to_string())]
    );
    m.process(InputEvent::up("a"), NOW + 150);
    m.process(InputEvent::up("b"), NOW + 150);
    m.process(InputEvent::down("a"), NOW + 160);
    assert_eq!(m.process(InputEvent::down("b"), NOW + 170), vec![OutputAction::CommitDirect("日".to_string())]);
}

#[test]
fn kanchoku_layout_with_trigger_passes_keys_through_while_up() {
    let mut f = file("test", LayoutMode::Kanchoku);
    f.direct_trigger = Some(direct_trigger(&["henkan"]));
    f.direct.push(direct(&["k", "j"], "日"));
    let mut m = machine(&f);
    assert!(!m.is_direct_active());
    assert_eq!(m.process(InputEvent::down("k"), NOW), vec![OutputAction::Passthrough("k".to_string())]);
    m.process(InputEvent::up("k"), NOW);
    m.process(InputEvent::down("henkan"), NOW);
    assert!(m.is_direct_active());
    assert!(m.process(InputEvent::down("k"), NOW).is_empty());
    assert!(m.process(InputEvent::down("j"), NOW).contains(&OutputAction::CommitDirect("日".to_string())));
}

#[test]
fn deferred_tail_kana_joins_the_tentative_characters() {
    let mut f = file("test", LayoutMode::Kana);
    f.layer.push(base(". . q w\n1 ＿ ai い\n"));
    f.chord.push(chord(&["q", "w"], "う", false, None));
    f.alias.push(alias(&[("ai", "あ い")]));
    let mut m = machine(&f);
    assert_eq!(m.process(InputEvent::down("q"), NOW), vec![OutputAction::SendKana("あ".to_string())]);
    assert_eq!(m.tick(NOW + 100), vec![OutputAction::SendKana("い".to_string())]);
    // The preedit holds あい, and so does the tentative buffer.
    assert_eq!(m.tentative_kana_string(), "あい");
    assert_eq!(m.process(InputEvent::down("BackSpace"), NOW + 110), vec![OutputAction::Backspace]);
    assert_eq!(m.tentative_kana_string(), "あ");
}
