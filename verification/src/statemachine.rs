//! The input state machine: turns key events into output actions for the
//! input method, following the compiled layout.
use vstd::prelude::*;
use crate::config::{
    Layout, LayoutV, Settings, LayoutMode, ModifierKind, HoldDetection, TapAction, TriggerKind, PASSTHROUGH_CELL,
    clone_strings, strip_mods, opt_str, strings_eq,
};
use crate::machine;
use crate::machine::{
    submit_if,
    ActionV, TentV, ModStateV, SmState, EventV, make_action, mods_acc, mod_bit, is_immediate, resolve,
    emit, backspaces, is_mozc_control, min_deadline, modifier_index_from,
    has_timed_chord, has_mutual_chord,
    chord_window, chord_window_from, layer_lookup_from, modified_from, mod_active, mutual_chord_from,
    initial_state, layout_ok, state_ok, flush, tentative_text, notify_conversion, RuleV,
    pending_keys, chord_match_from, prefix_match_from, postfix_match_from, rewritable, rewrite_count,
    pending_without, apply_rule, char_count, confirm_key, mutual_candidate, fire_mutual, speculative, actions_of, commit_action,
    commit_actions, direct_rule_from, has_direct_continuation, trigger_kind, direct_key, direct_down,
    direct_up, base_output_ok, lookup_base as base_lookup, interrupt_held, clear_oneshot, press_mod,
    held_remove, tracks_held, key_down, key_up, tick_tent, tick_actions, reset_mod, pending_expired, mark_confirmed, tail_entries,
    drop_expired,
};
use crate::strmap::lemma_assoc_index;
use crate::text::{chars_of, sub_string, split_ws, str_eq, strs};

verus! {

// ── Public event types ───────────────────────────────────────────────────────

#[derive(Debug, Clone, Copy, PartialEq, Eq, Structural)]
pub enum KeyEventKind {
    Down,
    Up,
}

/// One key event: the key's name, whether it went down or up, and flags.
#[derive(Debug, Clone)]
pub struct InputEvent {
    pub key: String,
    pub kind: KeyEventKind,
    pub shift: bool,
    pub is_repeat: bool,
}

impl View for InputEvent {
    type V = EventV;

    open spec fn view(&self) -> EventV {
        EventV {
            key: self.key@,
            down: self.kind == KeyEventKind::Down,
            shift: self.shift,
            is_repeat: self.is_repeat,
        }
    }
}

impl InputEvent {
    /// A key-down event for `key`.
    pub fn down(key: &str) -> (e: Self)
        ensures
            e@ == (EventV { key: key@, down: true, shift: false, is_repeat: false }),
    {
        InputEvent { key: String::from_str(key), kind: KeyEventKind::Down, shift: false, is_repeat: false }
    }

    /// A key-up event for `key`.
    pub fn up(key: &str) -> (e: Self)
        ensures
            e@ == (EventV { key: key@, down: false, shift: false, is_repeat: false }),
    {
        InputEvent { key: String::from_str(key), kind: KeyEventKind::Up, shift: false, is_repeat: false }
    }

    /// The same event with Shift held.
    pub fn with_shift(self) -> (e: Self)
        ensures
            e@ == (EventV { shift: true, ..self@ }),
    {
        let mut e = self;
        e.shift = true;
        e
    }
}

/// Output actions produced by the state machine for each input event.
#[derive(Debug, Clone, PartialEq, Eq)]
pub enum OutputAction {
    /// Send a kana string to the converter's preedit.
    SendKana(String),
    /// Send BackSpace to the preedit.
    Backspace,
    /// Commit text directly (kanchoku).
    CommitDirect(String),
    /// Submit the current preedit, then commit text.
    SubmitAndCommit(String),
    /// Pass the key through to the application unchanged.
    Passthrough(String),
    /// Submit the current preedit, then pass the key through to the application.
    SubmitThenPassthrough(String),
    /// Tell the converter that conversion is complete.
    MozcSubmit,
    /// Send a function or control key (the name after `!` in the layout).
    SendFunctionKey(String),
    /// Send a modifier+key combination; `mods` is a mask of the `MOD_*` bits.
    SendModifiedKey { key: String, mods: u8 },
}

impl View for OutputAction {
    type V = ActionV;

    open spec fn view(&self) -> ActionV {
        match self {
            OutputAction::SendKana(s) => ActionV::SendKana(s@),
            OutputAction::Backspace => ActionV::Backspace,
            OutputAction::CommitDirect(s) => ActionV::CommitDirect(s@),
            OutputAction::SubmitAndCommit(s) => ActionV::SubmitAndCommit(s@),
            OutputAction::Passthrough(s) => ActionV::Passthrough(s@),
            OutputAction::SubmitThenPassthrough(s) => ActionV::SubmitThenPassthrough(s@),
            OutputAction::MozcSubmit => ActionV::MozcSubmit,
            OutputAction::SendFunctionKey(s) => ActionV::SendFunctionKey(s@),
            OutputAction::SendModifiedKey { key, mods } => ActionV::SendModifiedKey { key: key@, mods: *mods },
        }
    }
}

impl DeepView for OutputAction {
    type V = ActionV;

    open spec fn deep_view(&self) -> ActionV {
        self@
    }
}

pub const MOD_SHIFT: u8 = 0x01;
pub const MOD_CTRL: u8 = 0x02;
pub const MOD_ALT: u8 = 0x04;
pub const MOD_SUPER: u8 = 0x08;

// ── Internal state ───────────────────────────────────────────────────────────

struct TentativeChar {
    kana: String,
    source_keys: Vec<String>,
    /// Some(deadline): chord rewrite window; None: sequence (permanent) or confirmed.
    rewrite_deadline: Option<u64>,
    /// Tokens after the leading kana, emitted once its rewrite window closes.
    pending_tail: Vec<String>,
    /// Set once one of the source keys is released: chords leave it alone.
    confirmed: bool,
}

impl View for TentativeChar {
    type V = TentV;

    closed spec fn view(&self) -> TentV {
        TentV {
            kana: self.kana@,
            source_keys: self.source_keys.deep_view(),
            deadline: self.rewrite_deadline,
            tail: self.pending_tail.deep_view(),
            confirmed: self.confirmed,
        }
    }
}

impl DeepView for TentativeChar {
    type V = TentV;

    closed spec fn deep_view(&self) -> TentV {
        self@
    }
}

#[derive(Clone, Copy, PartialEq, Eq, Structural)]
enum MozcMode {
    Composition,
    Conversion,
}

/// State of one modifier key.
struct ModifierState {
    id: String,
    held: bool,
    interrupted: bool,
    pressed_at: u64,
    oneshot_pending: bool,
    toggled: bool,
}

impl View for ModifierState {
    type V = ModStateV;

    closed spec fn view(&self) -> ModStateV {
        ModStateV {
            id: self.id@,
            held: self.held,
            interrupted: self.interrupted,
            pressed_at: self.pressed_at,
            oneshot_pending: self.oneshot_pending,
            toggled: self.toggled,
        }
    }
}

impl DeepView for ModifierState {
    type V = ModStateV;

    closed spec fn deep_view(&self) -> ModStateV {
        self@
    }
}

#[derive(Clone, Copy, PartialEq, Eq, Structural)]
enum DirectTriggerState {
    Inactive,
    Active,
}

/// The input state machine. Times are milliseconds on a monotonic clock.
pub struct StateMachine {
    layout: Layout,
    pending_keys: Vec<(String, u64)>,
    tentative_buffer: Vec<TentativeChar>,
    modifier_states: Vec<ModifierState>,
    direct_trigger_state: DirectTriggerState,
    direct_trigger_interrupted: bool,
    mozc_mode: MozcMode,
    /// The earliest rewrite deadline among the tentative characters.
    chord_deadline: Option<u64>,
    /// Regular keys that are physically held, for mutual chords.
    held_keys: Vec<String>,
    /// Kana stand in the preedit that no tentative character tracks.
    preedit_kept: bool,
}

impl View for StateMachine {
    type V = SmState;

    closed spec fn view(&self) -> SmState {
        SmState {
            pending: self.pending_keys.deep_view(),
            tentative: self.tentative_buffer.deep_view(),
            mods: self.modifier_states.deep_view(),
            direct_active: self.direct_trigger_state == DirectTriggerState::Active,
            direct_interrupted: self.direct_trigger_interrupted,
            converting: self.mozc_mode == MozcMode::Conversion,
            chord_deadline: self.chord_deadline,
            held: self.held_keys.deep_view(),
            preedit_kept: self.preedit_kept,
        }
    }
}

/// Times up to this bound leave room for any chord window.
pub open spec fn time_ok(now: u64) -> bool {
    now as int + u32::MAX as int <= u64::MAX as int
}

// ── Tokens ───────────────────────────────────────────────────────────────────

/// Whether `t` holds the character `c`.
pub(crate) fn has_char(t: &str, c: char) -> (r: bool)
    ensures
        r == t@.contains(c),
{
    let cs = chars_of(t);
    let mut i: usize = 0;
    while i < cs.len()
        invariant
            i <= cs.len(),
            cs@ == t@,
            forall|j: int| 0 <= j < i ==> t@[j] != c,
        decreases cs.len() - i,
    {
        if cs[i] == c {
            assert(t@[i as int] == c);
            return true;
        }
        i = i + 1;
    }
    false
}

/// Whether a token is emitted at once rather than speculatively.
fn is_immediate_action_token(t: &str) -> (r: bool)
    ensures
        r == is_immediate(t@),
{
    let cs = chars_of(t);
    let n = cs.len();
    (n > 0 && cs[0] == '!') || (n >= 2 && cs[1] == '-' && (cs[0] == 'S' || cs[0] == 'C' || cs[0]
        == 'A' || cs[0] == 'M'))
}

/// The action for one output token: `S-`/`C-`/`A-`/`M-` prefixes make a
/// modified key, a leading `!` a function key, anything else kana.
fn make_output_action(t: &str) -> (a: OutputAction)
    ensures
        a@ == make_action(t@),
{
    let cs = chars_of(t);
    let n = cs.len();
    let mut p: usize = 0;
    let mut mods: u8 = 0;
    assert(t@.subrange(0, n as int) =~= t@);
    while n - p >= 2 && cs[p + 1] == '-' && (cs[p] == 'S' || cs[p] == 'C' || cs[p] == 'A' || cs[p]
        == 'M')
        invariant
            p <= n,
            n == t@.len(),
            cs@ == t@,
            strip_mods(t@) == strip_mods(t@.subrange(p as int, n as int)),
            mods_acc(t@, 0) == mods_acc(t@.subrange(p as int, n as int), mods),
        decreases n - p,
    {
        let ghost u = t@.subrange(p as int, n as int);
        assert(u.subrange(2, u.len() as int) =~= t@.subrange(p + 2, n as int));
        let c = cs[p];
        let bit: u8 = if c == 'S' {
            MOD_SHIFT
        } else if c == 'C' {
            MOD_CTRL
        } else if c == 'A' {
            MOD_ALT
        } else {
            MOD_SUPER
        };
        assert(bit == mod_bit(u[0]));
        mods = mods | bit;
        p = p + 2;
    }
    let ghost u = t@.subrange(p as int, n as int);
    assert(strip_mods(u) == u);
    assert(mods_acc(u, mods) == mods);
    if mods != 0 {
        let key = if p < n && cs[p] == '!' {
            sub_string(t, p + 1, n)
        } else {
            sub_string(t, p, n)
        };
        assert(p < n && cs@[p as int] == '!' ==> key@ =~= u.drop_first());
        return OutputAction::SendModifiedKey { key, mods };
    }
    if n > 0 && cs[0] == '!' {
        let name = sub_string(t, 1, n);
        assert(name@ =~= t@.drop_first());
        OutputAction::SendFunctionKey(name)
    } else {
        OutputAction::SendKana(String::from_str(t))
    }
}

/// The tokens of a raw output: an alias's tokens, the words of a string
/// with a space in it, or the string itself.
fn resolve_sequence(layout: &Layout, raw: &str) -> (r: Vec<String>)
    ensures
        r.deep_view() == resolve(layout@, raw@),
{
    match layout.aliases.get(raw) {
        Some(ts) => {
            let r = clone_strings(ts);
            assert(r.deep_view() =~= strs(ts@));
            r
        },
        None => {
            if has_char(raw, ' ') {
                split_ws(raw)
            } else {
                let mut r: Vec<String> = Vec::new();
                r.push(String::from_str(raw));
                assert(r.deep_view() =~= seq![raw@]);
                r
            }
        },
    }
}

/// Emit a token sequence onto `tent`: one action per token; every token that
/// is not a function key or modifier combination becomes tentative.
fn emit_sequence(
    tent: &mut Vec<TentativeChar>,
    tokens: &Vec<String>,
    source_keys: &Vec<String>,
    rewrite_deadline: Option<u64>,
) -> (r: Vec<OutputAction>)
    ensures
        (final(tent).deep_view(), r.deep_view()) == emit(
            old(tent).deep_view(),
            tokens.deep_view(),
            source_keys.deep_view(),
            rewrite_deadline,
        ),
{
    let ghost goal = emit(old(tent).deep_view(), tokens.deep_view(), source_keys.deep_view(), rewrite_deadline);
    let ghost src = source_keys.deep_view();
    let mut actions: Vec<OutputAction> = Vec::new();
    let mut i: usize = 0;
    assert(tokens.deep_view().skip(0) =~= tokens.deep_view());
    assert(actions.deep_view() + goal.1 =~= goal.1);
    while i < tokens.len()
        invariant
            i <= tokens.len(),
            src == source_keys.deep_view(),
            goal.0 == emit(tent.deep_view(), tokens.deep_view().skip(i as int), src, rewrite_deadline).0,
            goal.1 == actions.deep_view() + emit(
                tent.deep_view(),
                tokens.deep_view().skip(i as int),
                src,
                rewrite_deadline,
            ).1,
        decreases tokens.len() - i,
    {
        let ghost rest = tokens.deep_view().skip(i as int);
        let ghost t0 = tent.deep_view();
        assert(rest[0] == tokens[i as int]@);
        assert(rest.drop_first() =~= tokens.deep_view().skip(i + 1));
        let a = make_output_action(tokens[i].as_str());
        let skip = match &a {
            OutputAction::SendFunctionKey(_) => true,
            OutputAction::SendModifiedKey { .. } => true,
            _ => false,
        };
        let ghost av = a@;
        let ghost before = actions.deep_view();
        actions.push(a);
        assert(actions.deep_view() =~= before.push(av));
        if !skip {
            let tc = TentativeChar {
                kana: tokens[i].clone(),
                source_keys: clone_strings(source_keys),
                rewrite_deadline,
                pending_tail: Vec::new(),
                confirmed: false,
            };
            let ghost tv = tc@;
            assert(tc.pending_tail.deep_view() =~= Seq::<Seq<char>>::empty());
            tent.push(tc);
            assert(tent.deep_view() =~= t0.push(tv));
        } else {
            assert(tent.deep_view() =~= t0);
        }
        let ghost r1 = emit(tent.deep_view(), tokens.deep_view().skip(i + 1), src, rewrite_deadline);
        assert(emit(t0, rest, src, rewrite_deadline) == (r1.0, seq![av] + r1.1));
        assert(before + (seq![av] + r1.1) =~= before.push(av) + r1.1);
        i = i + 1;
    }
    assert(tokens.deep_view().skip(i as int) =~= Seq::<Seq<char>>::empty());
    assert(actions.deep_view() + Seq::<ActionV>::empty() =~= actions.deep_view());
    actions
}

/// A vector holding one action.
fn one_action(a: OutputAction) -> (r: Vec<OutputAction>)
    ensures
        r.deep_view() == seq![a@],
{
    let ghost av = a@;
    let mut r: Vec<OutputAction> = Vec::new();
    r.push(a);
    assert(r.deep_view() =~= seq![av]);
    r
}

/// No actions.
fn no_actions() -> (r: Vec<OutputAction>)
    ensures
        r.deep_view() == Seq::<ActionV>::empty(),
{
    let r: Vec<OutputAction> = Vec::new();
    assert(r.deep_view() =~= Seq::<ActionV>::empty());
    r
}

/// Whether `key` is one of `keys`.
pub(crate) fn strings_contain(keys: &Vec<String>, key: &str) -> (r: bool)
    ensures
        r == keys.deep_view().contains(key@),
{
    let mut i: usize = 0;
    while i < keys.len()
        invariant
            i <= keys.len(),
            forall|j: int| 0 <= j < i ==> keys.deep_view()[j] != key@,
        decreases keys.len() - i,
    {
        if str_eq(keys[i].as_str(), key) {
            assert(keys.deep_view()[i as int] == key@);
            return true;
        }
        i = i + 1;
    }
    false
}

/// Keys sent to Mozc during composition for conversion and navigation.
fn is_mozc_control_key(key: &str) -> (b: bool)
    ensures
        b == is_mozc_control(key@),
{
    str_eq(key, "space")
        || str_eq(key, "Return")
        || str_eq(key, "Tab")
        || str_eq(key, "Left")
        || str_eq(key, "Right")
        || str_eq(key, "Up")
        || str_eq(key, "Down")
        || str_eq(key, "Home")
        || str_eq(key, "End")
        || str_eq(key, "Prior")
        || str_eq(key, "Next")
        || str_eq(key, "Delete")
        || str_eq(key, "Escape")
        || str_eq(key, "Henkan")
        || str_eq(key, "Muhenkan")
        || str_eq(key, "Hiragana_Katakana")
}


/// The earliest rewrite deadline among tentative characters.
fn min_rewrite_deadline(tent: &Vec<TentativeChar>) -> (r: Option<u64>)
    ensures
        r == min_deadline(tent.deep_view()),
{
    let mut r: Option<u64> = None;
    let mut i: usize = 0;
    assert(tent.deep_view().take(0) =~= Seq::<TentV>::empty());
    while i < tent.len()
        invariant
            i <= tent.len(),
            r == min_deadline(tent.deep_view().take(i as int)),
        decreases tent.len() - i,
    {
        let ghost t = tent.deep_view().take(i + 1);
        assert(t.drop_last() =~= tent.deep_view().take(i as int));
        assert(t.last() == tent@[i as int]@);
        match tent[i].rewrite_deadline {
            Some(d) => {
                r = match r {
                    Some(e) => Some(if e <= d { e } else { d }),
                    None => Some(d),
                };
            },
            None => {},
        }
        i = i + 1;
    }
    assert(tent.deep_view().take(i as int) =~= tent.deep_view());
    r
}

/// Erase the last `n` tentative characters: one backspace per character
/// they show in the preedit.
fn erase_tail(tent: &mut Vec<TentativeChar>, n: usize) -> (r: Vec<OutputAction>)
    requires
        n <= old(tent)@.len(),
    ensures
        final(tent).deep_view() == old(tent).deep_view().take(old(tent)@.len() - n),
        r.deep_view() == backspaces(char_count(old(tent).deep_view().skip(old(tent)@.len() - n))),
{
    let ghost t = tent.deep_view();
    let len = tent.len();
    let keep = len - n;
    let mut r: Vec<OutputAction> = Vec::new();
    let mut i: usize = keep;
    assert(t.subrange(keep as int, keep as int) =~= Seq::<TentV>::empty());
    assert(r.deep_view() =~= backspaces(0));
    while i < len
        invariant
            keep <= i <= len,
            len == tent@.len(),
            t == tent.deep_view(),
            r.deep_view() == backspaces(char_count(t.subrange(keep as int, i as int))),
        decreases len - i,
    {
        assert(t.subrange(keep as int, i + 1).drop_last() =~= t.subrange(keep as int, i as int));
        assert(t.subrange(keep as int, i + 1).last() == tent@[i as int]@);
        let ghost base = char_count(t.subrange(keep as int, i as int));
        let k = tent[i].kana.unicode_len();
        let mut j: usize = 0;
        while j < k
            invariant
                j <= k,
                r.deep_view() == backspaces((base + j) as nat),
            decreases k - j,
        {
            let ghost before = r.deep_view();
            r.push(OutputAction::Backspace);
            assert(r.deep_view() =~= before.push(ActionV::Backspace));
            assert(r.deep_view() =~= backspaces((base + j + 1) as nat));
            j = j + 1;
        }
        i = i + 1;
    }
    assert(t.subrange(keep as int, len as int) =~= t.skip(keep as int));
    tent.truncate(keep);
    assert(tent.deep_view() =~= t.take(keep as int));
    r
}

/// Mark the tentative characters made from `key` confirmed.
fn confirm_source_key(tent: &mut Vec<TentativeChar>, key: &str)
    ensures
        final(tent).deep_view() == confirm_key(old(tent).deep_view(), key@),
{
    let ghost t = tent.deep_view();
    let mut i: usize = 0;
    while i < tent.len()
        invariant
            i <= tent@.len(),
            t.len() == tent@.len(),
            t == old(tent).deep_view(),
            forall|j: int| 0 <= j < i ==> (#[trigger] tent@[j])@ == confirm_key(t, key@)[j],
            forall|j: int| i <= j < t.len() ==> (#[trigger] tent@[j])@ == t[j],
        decreases tent@.len() - i,
    {
        assert(tent@[i as int]@ == t[i as int]);
        if strings_contain(&tent[i].source_keys, key) {
            let tc = &tent[i];
            let ntc = TentativeChar {
                kana: tc.kana.clone(),
                source_keys: clone_strings(&tc.source_keys),
                rewrite_deadline: tc.rewrite_deadline,
                pending_tail: clone_strings(&tc.pending_tail),
                confirmed: true,
            };
            assert(ntc@ == confirm_key(t, key@)[i as int]);
            tent.set(i, ntc);
        }
        i = i + 1;
    }
    assert(tent.deep_view() =~= confirm_key(t, key@));
}

/// Mark every tentative character confirmed.
fn confirm_all(tent: &mut Vec<TentativeChar>)
    ensures
        final(tent).deep_view() == mark_confirmed(old(tent).deep_view()),
{
    let ghost t = tent.deep_view();
    let mut i: usize = 0;
    while i < tent.len()
        invariant
            i <= tent@.len(),
            t.len() == tent@.len(),
            t == old(tent).deep_view(),
            forall|j: int| 0 <= j < i ==> (#[trigger] tent@[j])@ == mark_confirmed(t)[j],
            forall|j: int| i <= j < t.len() ==> (#[trigger] tent@[j])@ == t[j],
        decreases tent@.len() - i,
    {
        assert(tent@[i as int]@ == t[i as int]);
        let tc = &tent[i];
        let ntc = TentativeChar {
            kana: tc.kana.clone(),
            source_keys: clone_strings(&tc.source_keys),
            rewrite_deadline: tc.rewrite_deadline,
            pending_tail: clone_strings(&tc.pending_tail),
            confirmed: true,
        };
        assert(ntc@ == mark_confirmed(t)[i as int]);
        tent.set(i, ntc);
        i = i + 1;
    }
    assert(tent.deep_view() =~= mark_confirmed(t));
}

/// Erase every tentative character: one backspace per character shown.
fn flush_buffer(tent: &mut Vec<TentativeChar>) -> (r: Vec<OutputAction>)
    ensures
        final(tent).deep_view() == Seq::<TentV>::empty(),
        r.deep_view() == backspaces(char_count(old(tent).deep_view())),
{
    let ghost t = tent.deep_view();
    let n = tent.len();
    let r = erase_tail(tent, n);
    assert(t.skip(0) =~= t);
    assert(tent.deep_view() =~= Seq::<TentV>::empty());
    r
}

// ── Layout queries ───────────────────────────────────────────────────────────

fn modifier_index(layout: &Layout, key: &str) -> (r: Option<usize>)
    ensures
        match r {
            Some(i) => machine::modifier_index(layout@, key@) == Some(i as int) && i < layout.modifiers@.len(),
            None => machine::modifier_index(layout@, key@) is None,
        },
{
    let ghost ms = layout@.modifiers;
    let mut i: usize = 0;
    while i < layout.modifiers.len()
        invariant
            i <= layout.modifiers.len(),
            ms == layout@.modifiers,
            modifier_index_from(ms, key@, 0) == modifier_index_from(ms, key@, i as int),
            forall|j: int| 0 <= j < i ==> ms[j].key != key@,
        decreases layout.modifiers.len() - i,
    {
        assert(ms[i as int] == layout.modifiers@[i as int]@);
        if str_eq(layout.modifiers[i].key.as_str(), key) {
            return Some(i);
        }
        i = i + 1;
    }
    None
}

fn is_direct_trigger_key(layout: &Layout, key: &str) -> (r: bool)
    ensures
        r == machine::is_direct_trigger_key(layout@, key@),
{
    match &layout.direct_trigger {
        Some(dt) => {
            assert(dt.keys.deep_view() =~= strs(dt.keys@));
            strings_contain(&dt.keys, key)
        },
        None => false,
    }
}

fn lookup_base(layout: &Layout, key: &str) -> (r: Option<String>)
    ensures
        opt_str(r) == machine::lookup_base(layout@, key@),
{
    match layout.base_layer.get(key) {
        Some(v) => Some(v.clone()),
        None => None,
    }
}

fn has_timed_chord_candidate(layout: &Layout, key: &str) -> (r: bool)
    ensures
        r == has_timed_chord(layout@, key@),
{
    let ghost cs = layout@.chords;
    let mut i: usize = 0;
    while i < layout.chords.len()
        invariant
            i <= layout.chords.len(),
            cs == layout@.chords,
            forall|j: int|
                0 <= j < i ==> !(!(#[trigger] cs[j]).symmetric && cs[j].keys.contains(key@) && cs[j].keys.len() > 1),
        decreases layout.chords.len() - i,
    {
        let c = &layout.chords[i];
        assert(cs[i as int] == c@);
        assert(c.keys.deep_view() =~= strs(c.keys@));
        if !c.symmetric && c.keys.len() > 1 && strings_contain(&c.keys, key) {
            return true;
        }
        i = i + 1;
    }
    false
}

fn has_mutual_chord_candidate(layout: &Layout, key: &str) -> (r: bool)
    ensures
        r == has_mutual_chord(layout@, key@),
{
    let ghost cs = layout@.chords;
    let mut i: usize = 0;
    while i < layout.chords.len()
        invariant
            i <= layout.chords.len(),
            cs == layout@.chords,
            forall|j: int|
                0 <= j < i ==> !((#[trigger] cs[j]).symmetric && cs[j].keys.contains(key@) && cs[j].keys.len() > 1),
        decreases layout.chords.len() - i,
    {
        let c = &layout.chords[i];
        assert(cs[i as int] == c@);
        assert(c.keys.deep_view() =~= strs(c.keys@));
        if c.symmetric && c.keys.len() > 1 && strings_contain(&c.keys, key) {
            return true;
        }
        i = i + 1;
    }
    false
}

fn has_postfix_candidate(layout: &Layout, key: &str) -> (r: bool)
    ensures
        r == machine::has_postfix_candidate(layout@, key@),
{
    let ghost ps = layout@.postfix_layers;
    let mut i: usize = 0;
    while i < layout.postfix_layers.len()
        invariant
            i <= layout.postfix_layers.len(),
            ps == layout@.postfix_layers,
            forall|j: int| 0 <= j < i ==> (#[trigger] ps[j]).0 != key@,
        decreases layout.postfix_layers.len() - i,
    {
        if str_eq(layout.postfix_layers[i].0.as_str(), key) {
            assert(ps[i as int].0 == key@);
            return true;
        }
        i = i + 1;
    }
    false
}

/// Whether some prefix layer is triggered by `first`.
fn is_prefix_trigger(layout: &Layout, first: &str) -> (r: bool)
    ensures
        r == exists|i: int|
            0 <= i < layout@.prefix_layers.len() && (#[trigger] layout@.prefix_layers[i]).0 == first@,
{
    let ghost ps = layout@.prefix_layers;
    let mut i: usize = 0;
    while i < layout.prefix_layers.len()
        invariant
            i <= layout.prefix_layers.len(),
            ps == layout@.prefix_layers,
            forall|j: int| 0 <= j < i ==> (#[trigger] ps[j]).0 != first@,
        decreases layout.prefix_layers.len() - i,
    {
        if str_eq(layout.prefix_layers[i].0.as_str(), first) {
            assert(ps[i as int].0 == first@);
            return true;
        }
        i = i + 1;
    }
    false
}

/// Window of the first timed chord on `key` that sets one, else the default.
fn chord_window_for(layout: &Layout, key: &str) -> (w: u32)
    ensures
        w == chord_window(layout@, key@),
{
    let ghost cs = layout@.chords;
    let ghost d = layout@.settings.chord_window_ms;
    let mut i: usize = 0;
    while i < layout.chords.len()
        invariant
            i <= layout.chords.len(),
            cs == layout@.chords,
            d == layout.settings.chord_window_ms,
            chord_window(layout@, key@) == chord_window_from(cs, key@, i as int, d),
        decreases layout.chords.len() - i,
    {
        let c = &layout.chords[i];
        assert(cs[i as int] == c@);
        assert(c.keys.deep_view() =~= strs(c.keys@));
        if !c.symmetric && strings_contain(&c.keys, key) {
            match c.window_ms {
                Some(w) => {
                    return w;
                },
                None => {},
            }
        }
        i = i + 1;
    }
    layout.settings.chord_window_ms
}


/// Whether every key of `keys` is one of `held`.
fn all_held(keys: &Vec<String>, held: &Vec<String>) -> (r: bool)
    ensures
        r == (forall|j: int| 0 <= j < keys.deep_view().len() ==> held.deep_view().contains(#[trigger] keys.deep_view()[j])),
{
    let mut i: usize = 0;
    while i < keys.len()
        invariant
            i <= keys.len(),
            forall|j: int| 0 <= j < i ==> held.deep_view().contains(#[trigger] keys.deep_view()[j]),
        decreases keys.len() - i,
    {
        if !strings_contain(held, keys[i].as_str()) {
            assert(!held.deep_view().contains(keys.deep_view()[i as int]));
            return false;
        }
        i = i + 1;
    }
    true
}

/// Output of `key` in the first modified layer for modifier `id` that maps it.
fn layer_lookup(layout: &Layout, id: &str, key: &str) -> (r: Option<String>)
    ensures
        opt_str(r) == layer_lookup_from(layout@.modified_layers, id@, key@, 0),
{
    let ghost ls = layout@.modified_layers;
    let mut j: usize = 0;
    while j < layout.modified_layers.len()
        invariant
            j <= layout.modified_layers.len(),
            ls == layout@.modified_layers,
            layer_lookup_from(ls, id@, key@, 0) == layer_lookup_from(ls, id@, key@, j as int),
        decreases layout.modified_layers.len() - j,
    {
        assert(ls[j as int] == (layout.modified_layers@[j as int].0@, layout.modified_layers@[j as int].1@));
        if str_eq(layout.modified_layers[j].0.as_str(), id) {
            match layout.modified_layers[j].1.get(key) {
                Some(v) => {
                    return Some(v.clone());
                },
                None => {},
            }
        }
        j = j + 1;
    }
    None
}

impl StateMachine {
    /// The layout the machine runs on.
    pub closed spec fn layout_view(&self) -> LayoutV {
        self.layout@
    }

    pub open spec fn wf(&self) -> bool {
        state_ok(self.layout_view(), self@)
    }

    /// A machine on `layout` with nothing pending and every modifier idle.
    pub fn new(layout: Layout) -> (sm: Self)
        requires
            layout_ok(layout@),
        ensures
            sm.wf(),
            sm.layout_view() == layout@,
            sm@ == initial_state(layout@),
    {
        let ghost l = layout@;
        let mut ms: Vec<ModifierState> = Vec::new();
        let mut i: usize = 0;
        while i < layout.modifiers.len()
            invariant
                i <= layout.modifiers.len(),
                l == layout@,
                ms@.len() == i,
                forall|j: int| 0 <= j < i ==> (#[trigger] ms@[j])@ == initial_state(l).mods[j],
            decreases layout.modifiers.len() - i,
        {
            assert(l.modifiers[i as int] == layout.modifiers@[i as int]@);
            ms.push(
                ModifierState {
                    id: layout.modifiers[i].id.clone(),
                    held: false,
                    interrupted: false,
                    pressed_at: 0,
                    oneshot_pending: false,
                    toggled: false,
                },
            );
            i = i + 1;
        }
        let sm = StateMachine {
            layout,
            pending_keys: Vec::new(),
            tentative_buffer: Vec::new(),
            modifier_states: ms,
            direct_trigger_state: DirectTriggerState::Inactive,
            direct_trigger_interrupted: false,
            mozc_mode: MozcMode::Composition,
            chord_deadline: None,
            held_keys: Vec::new(),
            preedit_kept: false,
        };
        assert(sm.modifier_states.deep_view() =~= initial_state(l).mods);
        assert(sm.pending_keys.deep_view() =~= Seq::<(Seq<char>, u64)>::empty());
        assert(sm.tentative_buffer.deep_view() =~= Seq::<TentV>::empty());
        assert(sm.held_keys.deep_view() =~= Seq::<Seq<char>>::empty());
        sm
    }

    /// Erase every tentative character: one backspace each.
    fn flush_tentative(&mut self) -> (r: Vec<OutputAction>)
        ensures
            final(self)@ == flush(old(self)@).0,
            r.deep_view() == flush(old(self)@).1,
            final(self).layout == old(self).layout,
            final(self).modifier_states == old(self).modifier_states,
    {
        flush_buffer(&mut self.tentative_buffer)
    }

    /// Backspace: pop one tentative character, else drop a partial
    /// sequence silently, else forward the backspace.
    fn handle_backspace(&mut self) -> (r: Vec<OutputAction>)
        ensures
            final(self)@ == machine::backspace(old(self)@).0,
            r.deep_view() == machine::backspace(old(self)@).1,
            final(self).layout == old(self).layout,
            final(self).modifier_states == old(self).modifier_states,
    {
        if self.tentative_buffer.len() > 0 {
            let ghost t = self.tentative_buffer.deep_view();
            let r = erase_tail(&mut self.tentative_buffer, 1);
            assert(t.take(t.len() - 1) =~= t.drop_last());
            assert(t.skip(t.len() - 1).drop_last() =~= Seq::<TentV>::empty());
            assert(t.skip(t.len() - 1).last() == t.last());
            assert(char_count(Seq::<TentV>::empty()) == 0);
            assert(char_count(t.skip(t.len() - 1)) == t.last().kana.len());
            self.pending_keys.clear();
            assert(self.pending_keys.deep_view() =~= Seq::<(Seq<char>, u64)>::empty());
            r
        } else if self.pending_keys.len() > 0 {
            self.pending_keys.clear();
            assert(self.pending_keys.deep_view() =~= Seq::<(Seq<char>, u64)>::empty());
            no_actions()
        } else {
            one_action(OutputAction::Backspace)
        }
    }

    /// The converter reports it has switched to conversion.
    pub fn notify_mozc_conversion(&mut self)
        requires
            old(self).wf(),
        ensures
            final(self).wf(),
            final(self).layout_view() == old(self).layout_view(),
            final(self)@ == notify_conversion(old(self)@),
    {
        if self.mozc_mode != MozcMode::Conversion {
            self.tentative_buffer.clear();
            self.pending_keys.clear();
            self.held_keys.clear();
            assert(self.tentative_buffer.deep_view() =~= Seq::<TentV>::empty());
            assert(self.pending_keys.deep_view() =~= Seq::<(Seq<char>, u64)>::empty());
            assert(self.held_keys.deep_view() =~= Seq::<Seq<char>>::empty());
        }
        self.mozc_mode = MozcMode::Conversion;
    }

    /// The converter reports it is composing again (e.g. after a commit).
    pub fn notify_mozc_composition(&mut self)
        requires
            old(self).wf(),
        ensures
            final(self).wf(),
            final(self).layout_view() == old(self).layout_view(),
            final(self)@ == (SmState { converting: false, ..old(self)@ }),
    {
        self.mozc_mode = MozcMode::Composition;
    }

    /// The converter reports an empty preedit: no kana stand in it.
    pub fn notify_preedit_empty(&mut self)
        requires
            old(self).wf(),
        ensures
            final(self).wf(),
            final(self).layout_view() == old(self).layout_view(),
            final(self)@ == (SmState { preedit_kept: false, ..old(self)@ }),
    {
        self.preedit_kept = false;
    }

    /// The kana of the tentative characters, in order.
    pub fn tentative_kana_string(&self) -> (s: String)
        ensures
            s@ == tentative_text(self@.tentative),
    {
        let ghost t = self.tentative_buffer.deep_view();
        let mut s = String::new();
        let mut i: usize = 0;
        assert(t.take(0) =~= Seq::<TentV>::empty());
        while i < self.tentative_buffer.len()
            invariant
                i <= self.tentative_buffer.len(),
                t == self.tentative_buffer.deep_view(),
                s@ == tentative_text(t.take(i as int)),
            decreases self.tentative_buffer.len() - i,
        {
            assert(t.take(i + 1).drop_last() =~= t.take(i as int));
            assert(t.take(i + 1).last() == self.tentative_buffer@[i as int]@);
            s = s.concat(self.tentative_buffer[i].kana.as_str());
            i = i + 1;
        }
        assert(t.take(i as int) =~= t);
        s
    }

    /// Whether keys go to direct (kanchoku) input: while the direct trigger
    /// is active, and always in a kanchoku layout without a trigger.
    pub fn is_direct_active(&self) -> (b: bool)
        ensures
            b == (self@.direct_active || (self.layout_view().meta.mode == LayoutMode::Kanchoku
                && self.layout_view().direct_trigger is None)),
    {
        self.direct_trigger_state == DirectTriggerState::Active || (self.layout.meta.mode
            == LayoutMode::Kanchoku && self.layout.direct_trigger.is_none())
    }

    fn has_prefix_continuation(&self) -> (r: bool)
        ensures
            r == machine::has_prefix_continuation(self.layout@, self@),
    {
        if self.pending_keys.len() == 0 {
            return false;
        }
        assert(self@.pending[0].0 == self.pending_keys@[0].0@);
        is_prefix_trigger(&self.layout, self.pending_keys[0].0.as_str())
    }

    /// Output of `key` in the layer of the first active modifier that maps it.
    fn check_modified_layer(&self, key: &str, now: u64) -> (r: Option<String>)
        ensures
            opt_str(r) == modified_from(self.layout@, self@.mods, key@, now, 0),
    {
        let ghost l = self.layout@;
        let ghost ms = self@.mods;
        let mut i: usize = 0;
        while i < self.modifier_states.len() && i < self.layout.modifiers.len()
            invariant
                i <= self.modifier_states.len(),
                l == self.layout@,
                ms == self@.mods,
                modified_from(l, ms, key@, now, 0) == modified_from(l, ms, key@, now, i as int),
            decreases self.modifier_states.len() - i,
        {
            let m = &self.modifier_states[i];
            let def = &self.layout.modifiers[i];
            assert(ms[i as int] == m@);
            assert(l.modifiers[i as int] == def@);
            let active = if m.oneshot_pending || m.toggled {
                true
            } else if m.held {
                match def.hold_detection {
                    HoldDetection::Timeout => {
                        let el: u64 = if now >= m.pressed_at {
                            now - m.pressed_at
                        } else {
                            0
                        };
                        #[verifier::truncate]
                        (el as u32) >= def.hold_timeout_ms
                    },
                    HoldDetection::Interrupt => true,
                }
            } else {
                false
            };
            assert(active == mod_active(ms[i as int], l.modifiers[i as int], now));
            if active {
                match layer_lookup(&self.layout, m.id.as_str(), key) {
                    Some(v) => {
                        return Some(v);
                    },
                    None => {},
                }
            }
            i = i + 1;
        }
        None
    }

    /// The longest mutual chord on `key` whose keys are all held (the first
    /// of equally long ones).
    fn find_mutual_chord_match(&self, key: &str) -> (r: Option<usize>)
        ensures
            match r {
                Some(c) => mutual_chord_from(self.layout@, self@.held, key@, 0) == Some(c as int) && c
                    < self.layout.chords@.len(),
                None => mutual_chord_from(self.layout@, self@.held, key@, 0) is None,
            },
    {
        let ghost l = self.layout@;
        let ghost h = self@.held;
        let mut best: Option<usize> = None;
        let mut i: usize = self.layout.chords.len();
        while i > 0
            invariant
                i <= self.layout.chords.len(),
                l == self.layout@,
                h == self@.held,
                match best {
                    Some(c) => mutual_chord_from(l, h, key@, i as int) == Some(c as int) && c < l.chords.len(),
                    None => mutual_chord_from(l, h, key@, i as int) is None,
                },
            decreases i,
        {
            i = i - 1;
            let c = &self.layout.chords[i];
            assert(l.chords[i as int] == c@);
            assert(c.keys.deep_view() =~= strs(c.keys@));
            if c.symmetric && strings_contain(&c.keys, key) && all_held(&c.keys, &self.held_keys) {
                assert(mutual_candidate(l, h, key@, i as int));
                let longer = match best {
                    Some(b) => {
                        assert(l.chords[b as int] == self.layout.chords@[b as int]@);
                        c.keys.len() >= self.layout.chords[b].keys.len()
                    },
                    None => true,
                };
                if longer {
                    best = Some(i);
                }
            } else {
                assert(!mutual_candidate(l, h, key@, i as int));
            }
        }
        best
    }
}


// ── Rule matching and rewriting ──────────────────────────────────────────────

/// A matched rule: its raw output, the keys it consumes, and whether it is
/// a chord.
struct RuleMatch {
    output: String,
    source_keys: Vec<String>,
    chord: bool,
}

impl View for RuleMatch {
    type V = RuleV;

    closed spec fn view(&self) -> RuleV {
        (self.output@, self.source_keys.deep_view(), self.chord)
    }
}

spec fn rule_opt(r: Option<RuleMatch>) -> Option<RuleV> {
    match r {
        Some(m) => Some(m@),
        None => None,
    }
}

/// Whether `a` and `b` hold the same keys, in any order.
fn same_key_set(a: &Vec<String>, b: &Vec<String>) -> (r: bool)
    ensures
        r == (a.deep_view().to_set() == b.deep_view().to_set()),
{
    let ab = all_held(a, b);
    let ba = all_held(b, a);
    let ghost x = a.deep_view();
    let ghost y = b.deep_view();
    proof {
        if ab && ba {
            assert forall|k: Seq<char>| x.to_set().contains(k) == y.to_set().contains(k) by {
                if x.contains(k) {
                    let j = choose|j: int| 0 <= j < x.len() && x[j] == k;
                    assert(y.contains(x[j]));
                }
                if y.contains(k) {
                    let j = choose|j: int| 0 <= j < y.len() && y[j] == k;
                    assert(x.contains(y[j]));
                }
            }
            assert(x.to_set() =~= y.to_set());
        } else if !ab {
            let j = choose|j: int| 0 <= j < x.len() && !y.contains(#[trigger] x[j]);
            assert(x.to_set().contains(x[j]));
            assert(!y.to_set().contains(x[j]));
        } else {
            let j = choose|j: int| 0 <= j < y.len() && !x.contains(#[trigger] y[j]);
            assert(y.to_set().contains(y[j]));
            assert(!x.to_set().contains(y[j]));
        }
    }
    ab && ba
}

/// Whether a rule on `keys` rewrites tentative character `tc`.
fn rewrites_char(tc: &TentativeChar, keys: &Vec<String>, chord: bool) -> (r: bool)
    ensures
        r == rewritable(tc@, keys.deep_view(), chord),
{
    if chord && tc.confirmed {
        return false;
    }
    let b = all_held(&tc.source_keys, keys);
    assert(tc@.source_keys == tc.source_keys.deep_view());
    assert(b == machine::within(tc@, keys.deep_view()));
    b
}

/// Number of trailing tentative characters a rule on `keys` rewrites.
fn count_rewritten(tent: &Vec<TentativeChar>, keys: &Vec<String>, chord: bool) -> (n: usize)
    ensures
        n == rewrite_count(tent.deep_view(), keys.deep_view(), chord),
        n <= tent@.len(),
{
    let ghost t = tent.deep_view();
    let ghost ks = keys.deep_view();
    let len = tent.len();
    let mut n: usize = 0;
    assert(t.take(len as int) =~= t);
    while n < len
        invariant
            n <= len,
            len == tent@.len(),
            t == tent.deep_view(),
            ks == keys.deep_view(),
            rewrite_count(t, ks, chord) == n + rewrite_count(t.take(len - n), ks, chord),
        decreases len - n,
    {
        let ghost u = t.take(len - n);
        assert(u.last() == tent@[len - n - 1]@);
        assert(u.drop_last() =~= t.take(len - n - 1));
        if !rewrites_char(&tent[len - n - 1], keys, chord) {
            return n;
        }
        n = n + 1;
    }
    n
}

/// Append `b` to `a`.
fn extend_actions(a: &mut Vec<OutputAction>, b: Vec<OutputAction>)
    ensures
        final(a).deep_view() == old(a).deep_view() + b.deep_view(),
{
    let mut b = b;
    let ghost bv = b.deep_view();
    a.append(&mut b);
    assert(a.deep_view() =~= old(a).deep_view() + bv);
}

/// The pending entries whose key is not one of `ks`, in order.
fn pending_without_keys(p: &Vec<(String, u64)>, ks: &Vec<String>) -> (r: Vec<(String, u64)>)
    ensures
        r.deep_view() == pending_without(p.deep_view(), ks.deep_view()),
{
    let ghost pv = p.deep_view();
    let mut r: Vec<(String, u64)> = Vec::new();
    let mut i: usize = 0;
    assert(pv.take(0) =~= Seq::<(Seq<char>, u64)>::empty());
    assert(r.deep_view() =~= Seq::<(Seq<char>, u64)>::empty());
    while i < p.len()
        invariant
            i <= p.len(),
            pv == p.deep_view(),
            r.deep_view() == pending_without(pv.take(i as int), ks.deep_view()),
        decreases p.len() - i,
    {
        assert(pv.take(i + 1).drop_last() =~= pv.take(i as int));
        assert(pv.take(i + 1).last() == (p@[i as int].0@, p@[i as int].1));
        if !strings_contain(ks, p[i].0.as_str()) {
            let ghost before = r.deep_view();
            r.push((p[i].0.clone(), p[i].1));
            assert(r.deep_view() =~= before.push((p@[i as int].0@, p@[i as int].1)));
        }
        i = i + 1;
    }
    assert(pv.take(i as int) =~= pv);
    r
}

impl StateMachine {
    /// The keys of the pending entries.
    fn pending_key_list(&self) -> (r: Vec<String>)
        ensures
            r.deep_view() == pending_keys(self@),
    {
        let mut r: Vec<String> = Vec::new();
        let mut i: usize = 0;
        while i < self.pending_keys.len()
            invariant
                i <= self.pending_keys.len(),
                r@.len() == i,
                forall|j: int| 0 <= j < i ==> (#[trigger] r@[j])@ == self.pending_keys@[j].0@,
            decreases self.pending_keys.len() - i,
        {
            r.push(self.pending_keys[i].0.clone());
            i = i + 1;
        }
        assert(r.deep_view() =~= pending_keys(self@));
        r
    }

    /// A timed chord whose keys are exactly `keys`, in any order.
    fn try_chord_match(&self, keys: &Vec<String>) -> (r: Option<RuleMatch>)
        ensures
            rule_opt(r) == chord_match_from(self.layout@, keys.deep_view(), 0),
    {
        let ghost l = self.layout@;
        let mut i: usize = 0;
        while i < self.layout.chords.len()
            invariant
                i <= self.layout.chords.len(),
                l == self.layout@,
                chord_match_from(l, keys.deep_view(), 0) == chord_match_from(l, keys.deep_view(), i as int),
            decreases self.layout.chords.len() - i,
        {
            let c = &self.layout.chords[i];
            assert(l.chords[i as int] == c@);
            assert(c.keys.deep_view() =~= strs(c.keys@));
            if !c.symmetric && same_key_set(&c.keys, keys) {
                let m = RuleMatch { output: c.output.clone(), source_keys: clone_strings(keys), chord: true };
                assert(m.source_keys.deep_view() =~= keys.deep_view());
                return Some(m);
            }
            i = i + 1;
        }
        None
    }

    /// A prefix-layer sequence or timed chord completed by the pending keys.
    fn try_resolve_pending(&self) -> (r: Option<RuleMatch>)
        ensures
            rule_opt(r) == machine::try_resolve_pending(self.layout@, self@),
    {
        if self.pending_keys.len() < 2 {
            return None;
        }
        let keys = self.pending_key_list();
        let ghost kv = keys.deep_view();
        let ghost l = self.layout@;
        let n = keys.len();
        let mut i: usize = 0;
        while i < self.layout.prefix_layers.len()
            invariant
                i <= self.layout.prefix_layers.len(),
                l == self.layout@,
                kv == keys.deep_view(),
                kv == pending_keys(self@),
                n == kv.len(),
                n >= 2,
                prefix_match_from(l, kv, 0) == prefix_match_from(l, kv, i as int),
            decreases self.layout.prefix_layers.len() - i,
        {
            let (trigger, grid) = (&self.layout.prefix_layers[i].0, &self.layout.prefix_layers[i].1);
            assert(l.prefix_layers[i as int] == (trigger@, grid@));
            if str_eq(keys[0].as_str(), trigger.as_str()) {
                match grid.get(keys[n - 1].as_str()) {
                    Some(v) => {
                        if n == 2 {
                            let m = RuleMatch { output: v.clone(), source_keys: clone_strings(&keys), chord: false };
                            assert(m.source_keys.deep_view() =~= kv);
                            return Some(m);
                        }
                    },
                    None => {},
                }
            }
            i = i + 1;
        }
        self.try_chord_match(&keys)
    }

    /// A postfix rule: `key` triggers a postfix layer for the last tentative character.
    fn try_resolve_postfix(&self, key: &str) -> (r: Option<RuleMatch>)
        ensures
            rule_opt(r) == machine::try_resolve_postfix(self.layout@, self@, key@),
    {
        let len = self.tentative_buffer.len();
        if len == 0 {
            return None;
        }
        let prev = &self.tentative_buffer[len - 1].source_keys;
        let ghost pv = prev.deep_view();
        assert(self@.tentative.last() == self.tentative_buffer@[len - 1]@);
        let ghost l = self.layout@;
        let mut i: usize = 0;
        while i < self.layout.postfix_layers.len()
            invariant
                i <= self.layout.postfix_layers.len(),
                l == self.layout@,
                pv == prev.deep_view(),
                self@.tentative.len() > 0,
                pv == self@.tentative.last().source_keys,
                postfix_match_from(l, key@, pv, 0) == postfix_match_from(l, key@, pv, i as int),
            decreases self.layout.postfix_layers.len() - i,
        {
            let (trigger, grid) = (&self.layout.postfix_layers[i].0, &self.layout.postfix_layers[i].1);
            assert(l.postfix_layers[i as int] == (trigger@, grid@));
            if str_eq(key, trigger.as_str()) && prev.len() > 0 {
                assert(pv[0] == prev@[0]@);
                match grid.get(prev[0].as_str()) {
                    Some(v) => {
                        let mut source = clone_strings(prev);
                        source.push(String::from_str(key));
                        assert(source.deep_view() =~= pv.push(key@));
                        return Some(RuleMatch { output: v.clone(), source_keys: source, chord: false });
                    },
                    None => {},
                }
            }
            i = i + 1;
        }
        None
    }

    /// BS-rewrite: erase the trailing tentative characters the rule
    /// replaces, then emit the rule's output.
    fn apply_rule_match(&mut self, rule: RuleMatch) -> (r: Vec<OutputAction>)
        ensures
            final(self)@ == apply_rule(old(self).layout@, old(self)@, rule@).0,
            r.deep_view() == apply_rule(old(self).layout@, old(self)@, rule@).1,
            final(self).layout == old(self).layout,
            final(self).modifier_states == old(self).modifier_states,
    {
        let n = count_rewritten(&self.tentative_buffer, &rule.source_keys, rule.chord);
        let mut actions = erase_tail(&mut self.tentative_buffer, n);
        let tokens = resolve_sequence(&self.layout, rule.output.as_str());
        let emitted = emit_sequence(&mut self.tentative_buffer, &tokens, &rule.source_keys, None);
        extend_actions(&mut actions, emitted);
        self.pending_keys.clear();
        assert(self.pending_keys.deep_view() =~= Seq::<(Seq<char>, u64)>::empty());
        self.chord_deadline = min_rewrite_deadline(&self.tentative_buffer);
        actions
    }

    /// Fire mutual chord `c`: erase the tentative characters it replaces,
    /// drop its keys from the pending keys, then emit the chord's output.
    fn fire_mutual_chord(&mut self, c: usize) -> (r: Vec<OutputAction>)
        requires
            c < old(self).layout@.chords.len(),
        ensures
            final(self)@ == fire_mutual(old(self).layout@, old(self)@, c as int).0,
            r.deep_view() == fire_mutual(old(self).layout@, old(self)@, c as int).1,
            final(self).layout == old(self).layout,
            final(self).modifier_states == old(self).modifier_states,
    {
        let chord = self.layout.chords[c].clone();
        assert(chord@ == self.layout@.chords[c as int]);
        assert(chord.keys.deep_view() =~= strs(chord.keys@));
        let n = count_rewritten(&self.tentative_buffer, &chord.keys, true);
        let mut actions = erase_tail(&mut self.tentative_buffer, n);
        self.pending_keys = pending_without_keys(&self.pending_keys, &chord.keys);
        let tokens = resolve_sequence(&self.layout, chord.output.as_str());
        let emitted = emit_sequence(&mut self.tentative_buffer, &tokens, &chord.keys, None);
        extend_actions(&mut actions, emitted);
        self.chord_deadline = min_rewrite_deadline(&self.tentative_buffer);
        actions
    }
}


// ── Emission ─────────────────────────────────────────────────────────────────

/// A list holding the one key `key`.
fn key_list(key: &str) -> (r: Vec<String>)
    ensures
        r.deep_view() == seq![key@],
{
    let mut r: Vec<String> = Vec::new();
    r.push(String::from_str(key));
    assert(r.deep_view() =~= seq![key@]);
    r
}

/// All but the first token.
fn tail_tokens(tokens: &Vec<String>) -> (r: Vec<String>)
    requires
        tokens@.len() > 0,
    ensures
        r.deep_view() == tokens.deep_view().drop_first(),
{
    let mut r: Vec<String> = Vec::new();
    let mut i: usize = 1;
    while i < tokens.len()
        invariant
            1 <= i <= tokens.len(),
            r@.len() == i - 1,
            forall|j: int| 0 <= j < i - 1 ==> (#[trigger] r@[j])@ == tokens@[j + 1]@,
        decreases tokens.len() - i,
    {
        r.push(tokens[i].clone());
        i = i + 1;
    }
    assert(r.deep_view() =~= tokens.deep_view().drop_first());
    r
}

/// One action per token.
fn actions_for(tokens: &Vec<String>) -> (r: Vec<OutputAction>)
    ensures
        r.deep_view() == actions_of(tokens.deep_view()),
{
    let mut r: Vec<OutputAction> = Vec::new();
    let mut i: usize = 0;
    while i < tokens.len()
        invariant
            i <= tokens.len(),
            r@.len() == i,
            forall|j: int| 0 <= j < i ==> (#[trigger] r@[j])@ == make_action(tokens@[j]@),
        decreases tokens.len() - i,
    {
        r.push(make_output_action(tokens[i].as_str()));
        i = i + 1;
    }
    assert(r.deep_view() =~= actions_of(tokens.deep_view()));
    r
}

/// One commit action per token: function keys and modifier combinations
/// are sent as such, anything else is committed directly.
fn commit_actions_for(tokens: &Vec<String>) -> (r: Vec<OutputAction>)
    ensures
        r.deep_view() == commit_actions(tokens.deep_view()),
{
    let mut r: Vec<OutputAction> = Vec::new();
    let mut i: usize = 0;
    while i < tokens.len()
        invariant
            i <= tokens.len(),
            r@.len() == i,
            forall|j: int| 0 <= j < i ==> (#[trigger] r@[j])@ == commit_action(tokens@[j]@),
        decreases tokens.len() - i,
    {
        let t = tokens[i].as_str();
        let a = if is_immediate_action_token(t) {
            make_output_action(t)
        } else {
            OutputAction::CommitDirect(tokens[i].clone())
        };
        r.push(a);
        i = i + 1;
    }
    assert(r.deep_view() =~= commit_actions(tokens.deep_view()));
    r
}

/// Whether `p` is a prefix of `s`.
fn strings_prefix(p: &Vec<String>, s: &Vec<String>) -> (r: bool)
    ensures
        r == (p@.len() <= s@.len() && s.deep_view().take(p@.len() as int) == p.deep_view()),
{
    if p.len() > s.len() {
        return false;
    }
    let mut i: usize = 0;
    while i < p.len()
        invariant
            i <= p.len() <= s.len(),
            forall|j: int| 0 <= j < i ==> s.deep_view()[j] == p.deep_view()[j],
        decreases p.len() - i,
    {
        if !str_eq(p[i].as_str(), s[i].as_str()) {
            assert(s.deep_view().take(p@.len() as int)[i as int] != p.deep_view()[i as int]);
            return false;
        }
        i = i + 1;
    }
    assert(s.deep_view().take(p@.len() as int) =~= p.deep_view());
    true
}

/// The first direct rule whose sequence is exactly `keys`.
fn find_direct_rule(layout: &Layout, keys: &Vec<String>) -> (r: Option<usize>)
    ensures
        match r {
            Some(i) => direct_rule_from(layout@.directs, keys.deep_view(), 0) == Some(i as int) && i
                < layout.directs@.len(),
            None => direct_rule_from(layout@.directs, keys.deep_view(), 0) is None,
        },
{
    let ghost ds = layout@.directs;
    assert(keys.deep_view() =~= strs(keys@));
    let mut i: usize = 0;
    while i < layout.directs.len()
        invariant
            i <= layout.directs.len(),
            ds == layout@.directs,
            keys.deep_view() == strs(keys@),
            direct_rule_from(ds, keys.deep_view(), 0) == direct_rule_from(ds, keys.deep_view(), i as int),
        decreases layout.directs.len() - i,
    {
        assert(ds[i as int] == layout.directs@[i as int]@);
        if strings_eq(&layout.directs[i].sequence, keys) {
            return Some(i);
        }
        i = i + 1;
    }
    None
}

/// Whether some direct rule is a longer sequence starting with `keys`.
fn has_direct_prefix(layout: &Layout, keys: &Vec<String>) -> (r: bool)
    ensures
        r == has_direct_continuation(layout@.directs, keys.deep_view()),
{
    let ghost ds = layout@.directs;
    let mut i: usize = 0;
    while i < layout.directs.len()
        invariant
            i <= layout.directs.len(),
            ds == layout@.directs,
            forall|j: int|
                0 <= j < i ==> !((#[trigger] ds[j]).sequence.len() > keys.deep_view().len() && ds[j].sequence.take(
                    keys.deep_view().len() as int,
                ) == keys.deep_view()),
        decreases layout.directs.len() - i,
    {
        let seq = &layout.directs[i].sequence;
        assert(ds[i as int].sequence =~= seq.deep_view());
        if seq.len() > keys.len() && strings_prefix(keys, seq) {
            return true;
        }
        i = i + 1;
    }
    false
}

fn trigger_kind_of(layout: &Layout) -> (k: TriggerKind)
    ensures
        k == trigger_kind(layout@),
{
    match &layout.direct_trigger {
        Some(dt) => dt.kind,
        None => TriggerKind::Hold,
    }
}

impl StateMachine {
    /// Speculative emission for `key`, just pushed onto the pending keys:
    /// complete a pending rule or postfix rule, else send the key's base
    /// output at once, keeping it rewritable while a rule may still apply.
    fn speculative_emit(&mut self, key: &str, now: u64) -> (r: Vec<OutputAction>)
        requires
            old(self).wf(),
            time_ok(now),
            old(self)@.pending.len() > 0,
        ensures
            final(self)@ == speculative(old(self).layout@, old(self)@, key@, now).0,
            r.deep_view() == speculative(old(self).layout@, old(self)@, key@, now).1,
            final(self).layout == old(self).layout,
            final(self).modifier_states == old(self).modifier_states,
    {
        let ghost l = self.layout@;
        let ghost s = self@;
        let has_timed_chord = has_timed_chord_candidate(&self.layout, key);
        let has_mutual_chord = has_mutual_chord_candidate(&self.layout, key);
        let has_prefix_continuation = self.has_prefix_continuation();
        let has_postfix_candidate = has_postfix_candidate(&self.layout, key);
        let base_kana = lookup_base(&self.layout, key);
        match self.try_resolve_pending() {
            Some(resolved) => {
                return self.apply_rule_match(resolved);
            },
            None => {},
        }
        match self.try_resolve_postfix(key) {
            Some(resolved) => {
                return self.apply_rule_match(resolved);
            },
            None => {},
        }
        let output = match base_kana {
            Some(o) => o,
            None => {
                if !has_timed_chord && !has_mutual_chord {
                    self.pending_keys.pop();
                    assert(self.pending_keys.deep_view() =~= s.pending.drop_last());
                    let is_composing = self.tentative_buffer.len() > 0 || self.mozc_mode
                        == MozcMode::Conversion || self.preedit_kept;
                    if is_composing {
                        if is_mozc_control_key(key) {
                            return one_action(OutputAction::SendFunctionKey(String::from_str(key)));
                        } else {
                            self.tentative_buffer.clear();
                            self.pending_keys.clear();
                            self.mozc_mode = MozcMode::Composition;
                            self.preedit_kept = false;
                            assert(self.tentative_buffer.deep_view() =~= Seq::<TentV>::empty());
                            assert(self.pending_keys.deep_view() =~= Seq::<(Seq<char>, u64)>::empty());
                            return one_action(OutputAction::SubmitThenPassthrough(String::from_str(key)));
                        }
                    } else {
                        return one_action(OutputAction::Passthrough(String::from_str(key)));
                    }
                }
                return no_actions();
            },
        };
        if str_eq(output.as_str(), PASSTHROUGH_CELL) {
            self.pending_keys.pop();
            assert(self.pending_keys.deep_view() =~= s.pending.drop_last());
            return one_action(OutputAction::Passthrough(String::from_str(key)));
        }
        let tokens = resolve_sequence(&self.layout, output.as_str());
        assert(base_lookup(l, key@) is Some);
        assert(base_output_ok(l, output@));
        let needs_speculation = has_timed_chord || has_mutual_chord || has_prefix_continuation
            || has_postfix_candidate;
        if is_immediate_action_token(tokens[0].as_str()) || (tokens.len() > 1 && !needs_speculation) {
            self.pending_keys.clear();
            assert(self.pending_keys.deep_view() =~= Seq::<(Seq<char>, u64)>::empty());
            let src = key_list(key);
            return emit_sequence(&mut self.tentative_buffer, &tokens, &src, None);
        }
        let kana = tokens[0].clone();
        let pending_tail = tail_tokens(&tokens);
        let ghost tv = self.tentative_buffer.deep_view();
        if has_timed_chord || has_mutual_chord {
            let window: u32 = if has_timed_chord {
                chord_window_for(&self.layout, key)
            } else {
                self.layout.settings.mutual_window_ms
            };
            let deadline: u64 = now + window as u64;
            self.chord_deadline = Some(
                match self.chord_deadline {
                    Some(existing) => if existing <= deadline {
                        existing
                    } else {
                        deadline
                    },
                    None => deadline,
                },
            );
            let action = OutputAction::SendKana(kana.clone());
            let tc = TentativeChar {
                kana,
                source_keys: key_list(key),
                rewrite_deadline: Some(deadline),
                pending_tail,
                confirmed: false,
            };
            let ghost tcv = tc@;
            self.tentative_buffer.push(tc);
            assert(self.tentative_buffer.deep_view() =~= tv.push(tcv));
            one_action(action)
        } else if has_prefix_continuation || has_postfix_candidate {
            let action = OutputAction::SendKana(kana.clone());
            let tc = TentativeChar {
                kana,
                source_keys: key_list(key),
                rewrite_deadline: None,
                pending_tail,
                confirmed: false,
            };
            let ghost tcv = tc@;
            self.tentative_buffer.push(tc);
            assert(self.tentative_buffer.deep_view() =~= tv.push(tcv));
            one_action(action)
        } else {
            self.pending_keys.clear();
            assert(self.pending_keys.deep_view() =~= Seq::<(Seq<char>, u64)>::empty());
            let mut actions = one_action(OutputAction::SendKana(kana.clone()));
            extend_actions(&mut actions, actions_for(&pending_tail));
            let tc = TentativeChar {
                kana,
                source_keys: key_list(key),
                rewrite_deadline: None,
                pending_tail: Vec::new(),
                confirmed: false,
            };
            let ghost tcv = tc@;
            assert(tc.pending_tail.deep_view() =~= Seq::<Seq<char>>::empty());
            self.tentative_buffer.push(tc);
            assert(self.tentative_buffer.deep_view() =~= tv.push(tcv));
            actions
        }
    }

    /// A key in direct (kanchoku) mode: collect it; commit the output of a
    /// completed rule; drop the keys when no rule can still complete.
    fn process_direct_key(&mut self, key: &str, now: u64) -> (r: Vec<OutputAction>)
        ensures
            final(self)@ == direct_key(old(self).layout@, old(self)@, key@, now).0,
            r.deep_view() == direct_key(old(self).layout@, old(self)@, key@, now).1,
            final(self).layout == old(self).layout,
            final(self).modifier_states == old(self).modifier_states,
    {
        let ghost s = self@;
        self.direct_trigger_interrupted = true;
        self.pending_keys.push((String::from_str(key), now));
        assert(self.pending_keys.deep_view() =~= s.pending.push((key@, now)));
        let pending = self.pending_key_list();
        match find_direct_rule(&self.layout, &pending) {
            Some(i) => {
                let output = self.layout.directs[i].output.clone();
                self.pending_keys.clear();
                assert(self.pending_keys.deep_view() =~= Seq::<(Seq<char>, u64)>::empty());
                let kana_in_preedit = self.tentative_buffer.len() > 0 || self.preedit_kept;
                self.preedit_kept = false;
                let mut actions = self.flush_tentative();
                let ghost fv = actions.deep_view();
                if kana_in_preedit {
                    actions.push(OutputAction::MozcSubmit);
                    assert(actions.deep_view() =~= fv + submit_if(true));
                } else {
                    assert(actions.deep_view() =~= fv + submit_if(false));
                }
                let tokens = resolve_sequence(&self.layout, output.as_str());
                let committed = commit_actions_for(&tokens);
                extend_actions(&mut actions, committed);
                return actions;
            },
            None => {},
        }
        if !has_direct_prefix(&self.layout, &pending) {
            self.pending_keys.clear();
            assert(self.pending_keys.deep_view() =~= Seq::<(Seq<char>, u64)>::empty());
        }
        no_actions()
    }

    /// Enter direct input: stop tracking the tentative characters (their
    /// kana stay in the preedit) and drop the pending keys.
    fn activate_direct(&mut self)
        ensures
            final(self)@ == (SmState {
                direct_active: true,
                tentative: Seq::empty(),
                pending: Seq::empty(),
                chord_deadline: None,
                preedit_kept: old(self)@.preedit_kept || old(self)@.tentative.len() > 0,
                ..old(self)@
            }),
            final(self).layout == old(self).layout,
            final(self).modifier_states == old(self).modifier_states,
    {
        self.direct_trigger_state = DirectTriggerState::Active;
        self.preedit_kept = self.preedit_kept || self.tentative_buffer.len() > 0;
        self.tentative_buffer.clear();
        self.pending_keys.clear();
        self.chord_deadline = None;
        assert(self.tentative_buffer.deep_view() =~= Seq::<TentV>::empty());
        assert(self.pending_keys.deep_view() =~= Seq::<(Seq<char>, u64)>::empty());
    }

    /// The direct trigger key went down: a hold trigger activates direct
    /// input; a toggle trigger flips it. Activation erases tentative output.
    fn handle_direct_trigger_down(&mut self) -> (r: Vec<OutputAction>)
        ensures
            final(self)@ == direct_down(old(self).layout@, old(self)@).0,
            r.deep_view() == direct_down(old(self).layout@, old(self)@).1,
            final(self).layout == old(self).layout,
            final(self).modifier_states == old(self).modifier_states,
    {
        match trigger_kind_of(&self.layout) {
            TriggerKind::Hold => {
                self.direct_trigger_interrupted = false;
                self.activate_direct();
                no_actions()
            },
            TriggerKind::Toggle => {
                if self.direct_trigger_state == DirectTriggerState::Inactive {
                    self.activate_direct();
                    no_actions()
                } else {
                    self.direct_trigger_state = DirectTriggerState::Inactive;
                    self.pending_keys.clear();
                    assert(self.pending_keys.deep_view() =~= Seq::<(Seq<char>, u64)>::empty());
                    no_actions()
                }
            },
        }
    }

    /// The direct trigger key went up: a hold trigger deactivates direct
    /// input, and a tap (no key in between) passes the key through.
    fn handle_direct_trigger_up(&mut self, key: &str) -> (r: Vec<OutputAction>)
        ensures
            final(self)@ == direct_up(old(self).layout@, old(self)@, key@).0,
            r.deep_view() == direct_up(old(self).layout@, old(self)@, key@).1,
            final(self).layout == old(self).layout,
            final(self).modifier_states == old(self).modifier_states,
    {
        if trigger_kind_of(&self.layout) != TriggerKind::Hold {
            return no_actions();
        }
        let tap_action = match &self.layout.direct_trigger {
            Some(dt) => dt.tap_action,
            None => TapAction::Passthrough,
        };
        let was_interrupted = self.direct_trigger_interrupted;
        self.direct_trigger_state = DirectTriggerState::Inactive;
        self.pending_keys.clear();
        assert(self.pending_keys.deep_view() =~= Seq::<(Seq<char>, u64)>::empty());
        if !was_interrupted {
            match tap_action {
                TapAction::Passthrough => {
                    return one_action(OutputAction::Passthrough(String::from_str(key)));
                },
                _ => {},
            }
        }
        no_actions()
    }
}


// ── Key events ───────────────────────────────────────────────────────────────

fn is_backspace_key(key: &str) -> (r: bool)
    ensures
        r == machine::is_backspace_key(key@),
{
    str_eq(key, "bs") || str_eq(key, "BackSpace") || str_eq(key, "backspace")
}

/// `held` without `key`.
fn held_without(held: &Vec<String>, key: &str) -> (r: Vec<String>)
    ensures
        r.deep_view() == held_remove(held.deep_view(), key@),
{
    let ghost h = held.deep_view();
    let mut r: Vec<String> = Vec::new();
    let mut i: usize = 0;
    assert(h.take(0) =~= Seq::<Seq<char>>::empty());
    assert(r.deep_view() =~= Seq::<Seq<char>>::empty());
    while i < held.len()
        invariant
            i <= held.len(),
            h == held.deep_view(),
            r.deep_view() == held_remove(h.take(i as int), key@),
        decreases held.len() - i,
    {
        assert(h.take(i + 1).drop_last() =~= h.take(i as int));
        assert(h.take(i + 1).last() == held@[i as int]@);
        if !str_eq(held[i].as_str(), key) {
            let ghost before = r.deep_view();
            r.push(held[i].clone());
            assert(r.deep_view() =~= before.push(held@[i as int]@));
        }
        i = i + 1;
    }
    assert(h.take(i as int) =~= h);
    r
}

impl StateMachine {
    /// Every held modifier has now shifted a key.
    fn interrupt_held_modifiers(&mut self)
        ensures
            final(self)@ == (SmState { mods: interrupt_held(old(self)@.mods), ..old(self)@ }),
            final(self).layout == old(self).layout,
            final(self).modifier_states@.len() == old(self).modifier_states@.len(),
    {
        let ghost ms = self@.mods;
        let mut i: usize = 0;
        while i < self.modifier_states.len()
            invariant
                i <= self.modifier_states.len(),
                ms.len() == self.modifier_states@.len(),
                self.layout == old(self).layout,
                self.pending_keys == old(self).pending_keys,
                self.tentative_buffer == old(self).tentative_buffer,
                self.direct_trigger_state == old(self).direct_trigger_state,
                self.direct_trigger_interrupted == old(self).direct_trigger_interrupted,
                self.mozc_mode == old(self).mozc_mode,
                self.chord_deadline == old(self).chord_deadline,
                self.held_keys == old(self).held_keys,
                self.preedit_kept == old(self).preedit_kept,
                ms == old(self)@.mods,
                forall|j: int| 0 <= j < i ==> (#[trigger] self.modifier_states@[j])@ == interrupt_held(ms)[j],
                forall|j: int| i <= j < ms.len() ==> (#[trigger] self.modifier_states@[j])@ == ms[j],
            decreases self.modifier_states.len() - i,
        {
            if self.modifier_states[i].held {
                let m = &self.modifier_states[i];
                let nm = ModifierState {
                    id: m.id.clone(),
                    held: m.held,
                    interrupted: true,
                    pressed_at: m.pressed_at,
                    oneshot_pending: m.oneshot_pending,
                    toggled: m.toggled,
                };
                self.modifier_states.set(i, nm);
            }
            i = i + 1;
        }
        assert(self.modifier_states.deep_view() =~= interrupt_held(ms));
    }

    /// A oneshot modifier is used up by the next key.
    fn clear_oneshot_modifiers(&mut self)
        ensures
            final(self)@ == (SmState { mods: clear_oneshot(old(self)@.mods), ..old(self)@ }),
            final(self).layout == old(self).layout,
            final(self).modifier_states@.len() == old(self).modifier_states@.len(),
    {
        let ghost ms = self@.mods;
        let mut i: usize = 0;
        while i < self.modifier_states.len()
            invariant
                i <= self.modifier_states.len(),
                ms.len() == self.modifier_states@.len(),
                self.layout == old(self).layout,
                self.pending_keys == old(self).pending_keys,
                self.tentative_buffer == old(self).tentative_buffer,
                self.direct_trigger_state == old(self).direct_trigger_state,
                self.direct_trigger_interrupted == old(self).direct_trigger_interrupted,
                self.mozc_mode == old(self).mozc_mode,
                self.chord_deadline == old(self).chord_deadline,
                self.held_keys == old(self).held_keys,
                self.preedit_kept == old(self).preedit_kept,
                ms == old(self)@.mods,
                forall|j: int| 0 <= j < i ==> (#[trigger] self.modifier_states@[j])@ == clear_oneshot(ms)[j],
                forall|j: int| i <= j < ms.len() ==> (#[trigger] self.modifier_states@[j])@ == ms[j],
            decreases self.modifier_states.len() - i,
        {
            let m = &self.modifier_states[i];
            let nm = ModifierState {
                id: m.id.clone(),
                held: m.held,
                interrupted: m.interrupted,
                pressed_at: m.pressed_at,
                oneshot_pending: false,
                toggled: m.toggled,
            };
            self.modifier_states.set(i, nm);
            i = i + 1;
        }
        assert(self.modifier_states.deep_view() =~= clear_oneshot(ms));
    }

    /// Modifier `idx` went down at `now`.
    fn press_modifier(&mut self, idx: usize, now: u64)
        requires
            old(self).wf(),
            idx < old(self).layout.modifiers@.len(),
        ensures
            final(self)@ == (SmState {
                mods: old(self)@.mods.update(
                    idx as int,
                    press_mod(old(self)@.mods[idx as int], old(self).layout@.modifiers[idx as int].kind, now),
                ),
                ..old(self)@
            }),
            final(self).layout == old(self).layout,
            final(self).modifier_states@.len() == old(self).modifier_states@.len(),
    {
        let ghost ms = self@.mods;
        let kind = self.layout.modifiers[idx].kind;
        assert(kind == self.layout@.modifiers[idx as int].kind);
        let m = &self.modifier_states[idx];
        assert(m@ == ms[idx as int]);
        let nm = ModifierState {
            id: m.id.clone(),
            held: match kind {
                ModifierKind::Hold => true,
                _ => m.held,
            },
            interrupted: false,
            pressed_at: now,
            oneshot_pending: match kind {
                ModifierKind::Oneshot => true,
                _ => m.oneshot_pending,
            },
            toggled: match kind {
                ModifierKind::Toggle => !m.toggled,
                _ => m.toggled,
            },
        };
        assert(nm@ == press_mod(ms[idx as int], kind, now));
        self.modifier_states.set(idx, nm);
        assert(self.modifier_states.deep_view() =~= ms.update(idx as int, press_mod(ms[idx as int], kind, now)));
    }

    /// Modifier `idx` went up: it is no longer held and its oneshot is gone.
    fn release_modifier(&mut self, idx: usize)
        requires
            idx < old(self).modifier_states@.len(),
        ensures
            final(self)@ == (SmState {
                mods: old(self)@.mods.update(
                    idx as int,
                    ModStateV { held: false, oneshot_pending: false, ..old(self)@.mods[idx as int] },
                ),
                ..old(self)@
            }),
            final(self).layout == old(self).layout,
            final(self).modifier_states@.len() == old(self).modifier_states@.len(),
    {
        let ghost ms = self@.mods;
        let m = &self.modifier_states[idx];
        assert(m@ == ms[idx as int]);
        let nm = ModifierState {
            id: m.id.clone(),
            held: false,
            interrupted: m.interrupted,
            pressed_at: m.pressed_at,
            oneshot_pending: false,
            toggled: m.toggled,
        };
        let ghost nv = nm@;
        self.modifier_states.set(idx, nm);
        assert(self.modifier_states.deep_view() =~= ms.update(idx as int, nv));
    }

    /// The tap action of modifier `idx` (released without shifting anything).
    fn modifier_tap(&mut self, idx: usize, key: &str) -> (r: Vec<OutputAction>)
        requires
            idx < old(self).layout.modifiers@.len(),
        ensures
            final(self)@ == machine::modifier_tap(
                old(self).layout@,
                old(self)@,
                old(self).layout@.modifiers[idx as int],
                key@,
            ).0,
            r.deep_view() == machine::modifier_tap(
                old(self).layout@,
                old(self)@,
                old(self).layout@.modifiers[idx as int],
                key@,
            ).1,
            final(self).layout == old(self).layout,
            final(self).modifier_states == old(self).modifier_states,
    {
        let def = self.layout.modifiers[idx].clone();
        assert(def@ == self.layout@.modifiers[idx as int]);
        match def.tap_action {
            TapAction::Passthrough => one_action(OutputAction::Passthrough(String::from_str(key))),
            TapAction::BaseKana => match lookup_base(&self.layout, key) {
                Some(raw) => {
                    let tokens = resolve_sequence(&self.layout, raw.as_str());
                    let src = key_list(key);
                    emit_sequence(&mut self.tentative_buffer, &tokens, &src, None)
                },
                None => no_actions(),
            },
            TapAction::Output => match &def.tap_output {
                Some(raw) => {
                    let tokens = resolve_sequence(&self.layout, raw.as_str());
                    let src = key_list(key);
                    emit_sequence(&mut self.tentative_buffer, &tokens, &src, None)
                },
                None => no_actions(),
            },
            TapAction::NoAction => no_actions(),
        }
    }
}


impl StateMachine {
    /// A key went down at `now`.
    #[verifier::rlimit(40)]
    fn process_key_down(&mut self, key: &str, now: u64) -> (r: Vec<OutputAction>)
        requires
            old(self).wf(),
            time_ok(now),
        ensures
            final(self)@ == key_down(old(self).layout@, old(self)@, key@, now).0,
            r.deep_view() == key_down(old(self).layout@, old(self)@, key@, now).1,
            final(self).layout == old(self).layout,
            final(self).modifier_states@.len() == old(self).modifier_states@.len(),
    {
        let ghost l = self.layout@;
        let ghost s = self@;
        // A modifier key changes its own state and nothing else.
        match modifier_index(&self.layout, key) {
            Some(idx) => {
                self.press_modifier(idx, now);
                return no_actions();
            },
            None => {},
        }
        if is_direct_trigger_key(&self.layout, key) {
            return self.handle_direct_trigger_down();
        }
        // Track held keys for mutual chords; a press of a key already held
        // is the keyboard's auto-repeat.
        let keeps_held = !is_backspace_key(key) && !is_mozc_control_key(key);
        if keeps_held {
            if strings_contain(&self.held_keys, key) {
                return no_actions();
            }
            let ghost h = self.held_keys.deep_view();
            self.held_keys.push(String::from_str(key));
            assert(self.held_keys.deep_view() =~= h.push(key@));
        }
        // Held modifiers have now shifted a key.
        self.interrupt_held_modifiers();
        let ghost s1 = self@;
        assert(s1 == SmState {
            held: if tracks_held(key@) {
                s.held.push(key@)
            } else {
                s.held
            },
            mods: interrupt_held(s.mods),
            ..s
        });
        if is_backspace_key(key) {
            return self.handle_backspace();
        }
        // During conversion a new key starts a fresh composition; a control
        // key (space, arrows, Return, ...) goes on working the conversion.
        if self.mozc_mode == MozcMode::Conversion && !is_mozc_control_key(key) {
            self.tentative_buffer.clear();
            self.pending_keys.clear();
            self.mozc_mode = MozcMode::Composition;
            assert(self.tentative_buffer.deep_view() =~= Seq::<TentV>::empty());
            assert(self.pending_keys.deep_view() =~= Seq::<(Seq<char>, u64)>::empty());
        }
        let ghost s2 = self@;
        if self.is_direct_active() {
            return self.process_direct_key(key, now);
        }
        // A kanchoku layout with its trigger up passes keys through.
        if self.layout.meta.mode == LayoutMode::Kanchoku {
            return one_action(OutputAction::Passthrough(String::from_str(key)));
        }
        match self.check_modified_layer(key, now) {
            Some(mod_output) => {
                self.clear_oneshot_modifiers();
                if str_eq(mod_output.as_str(), PASSTHROUGH_CELL) {
                    return one_action(OutputAction::Passthrough(String::from_str(key)));
                }
                let action = OutputAction::SendKana(mod_output.clone());
                let tc = TentativeChar {
                    kana: mod_output,
                    source_keys: key_list(key),
                    rewrite_deadline: None,
                    pending_tail: Vec::new(),
                    confirmed: false,
                };
                let ghost tv = self.tentative_buffer.deep_view();
                let ghost tcv = tc@;
                assert(tc.pending_tail.deep_view() =~= Seq::<Seq<char>>::empty());
                self.tentative_buffer.push(tc);
                assert(self.tentative_buffer.deep_view() =~= tv.push(tcv));
                return one_action(action);
            },
            None => {},
        }
        // Mutual chords fire as soon as all their keys are held.
        match self.find_mutual_chord_match(key) {
            Some(c) => {
                return self.fire_mutual_chord(c);
            },
            None => {},
        }
        self.pending_keys.push((String::from_str(key), now));
        assert(self.pending_keys.deep_view() =~= s2.pending.push((key@, now)));
        // In a hybrid layout without a trigger, direct sequences compete.
        if self.layout.meta.mode == LayoutMode::Hybrid && self.layout.direct_trigger.is_none() {
            let (claims, completes) = self.direct_sequence_claims();
            if claims {
                self.pending_keys.pop();
                assert(self.pending_keys.deep_view() =~= s2.pending);
                assert(self@ == s2);
                assert(pending_keys(s2).push(key@) =~= pending_keys(SmState { pending: s2.pending.push((key@, now)), ..s2 }));
                if completes {
                    // The kana typed before stay in the preedit as they are.
                    self.preedit_kept = self.preedit_kept || self.tentative_buffer.len() > 0;
                    self.tentative_buffer.clear();
                    self.chord_deadline = None;
                    assert(self.tentative_buffer.deep_view() =~= Seq::<TentV>::empty());
                }
                return self.process_direct_key(key, now);
            }
        }
        self.speculative_emit(key, now)
    }

    /// Whether the pending keys complete a direct sequence that no kana rule
    /// completes, or may still complete one; and whether they complete one.
    fn direct_sequence_claims(&self) -> (r: (bool, bool))
        ensures
            r.0 == match direct_rule_from(self.layout@.directs, pending_keys(self@), 0) {
                Some(_) => machine::try_resolve_pending(self.layout@, self@) is None,
                None => has_direct_continuation(self.layout@.directs, pending_keys(self@)),
            },
            r.1 == direct_rule_from(self.layout@.directs, pending_keys(self@), 0) is Some,
    {
        let keys = self.pending_key_list();
        match find_direct_rule(&self.layout, &keys) {
            Some(_) => (self.try_resolve_pending().is_none(), true),
            None => (has_direct_prefix(&self.layout, &keys), false),
        }
    }

    /// A key went up.
    fn process_key_up(&mut self, key: &str) -> (r: Vec<OutputAction>)
        requires
            old(self).wf(),
        ensures
            final(self)@ == key_up(old(self).layout@, old(self)@, key@).0,
            r.deep_view() == key_up(old(self).layout@, old(self)@, key@).1,
            final(self).layout == old(self).layout,
            final(self).modifier_states@.len() == old(self).modifier_states@.len(),
    {
        self.held_keys = held_without(&self.held_keys, key);
        confirm_source_key(&mut self.tentative_buffer, key);
        match modifier_index(&self.layout, key) {
            Some(idx) => {
                let kind = self.layout.modifiers[idx].kind;
                assert(kind == self.layout@.modifiers[idx as int].kind);
                // A toggle acted on its key-down; its release does nothing.
                if kind == ModifierKind::Toggle {
                    return no_actions();
                }
                let was_interrupted = self.modifier_states[idx].interrupted;
                let had_oneshot = self.modifier_states[idx].oneshot_pending;
                assert(self@.mods[idx as int] == self.modifier_states@[idx as int]@);
                self.release_modifier(idx);
                // Released without shifting anything: a tap.
                if !was_interrupted && !had_oneshot {
                    return self.modifier_tap(idx, key);
                }
                return no_actions();
            },
            None => {},
        }
        if is_direct_trigger_key(&self.layout, key) {
            return self.handle_direct_trigger_up(key);
        }
        no_actions()
    }

    /// Process one input event at `now`, returning the output actions.
    /// Repeated key-downs from auto-repeat are ignored.
    pub fn process(&mut self, event: InputEvent, now: u64) -> (r: Vec<OutputAction>)
        requires
            old(self).wf(),
            time_ok(now),
        ensures
            final(self).wf(),
            final(self).layout_view() == old(self).layout_view(),
            final(self)@ == machine::process(old(self).layout_view(), old(self)@, event@, now).0,
            r.deep_view() == machine::process(old(self).layout_view(), old(self)@, event@, now).1,
    {
        if event.is_repeat {
            return no_actions();
        }
        match event.kind {
            KeyEventKind::Down => self.process_key_down(event.key.as_str(), now),
            KeyEventKind::Up => self.process_key_up(event.key.as_str()),
        }
    }

    /// The pending entries whose chord window is still open at `now`.
    fn pending_unexpired(&self, now: u64) -> (r: Vec<(String, u64)>)
        ensures
            r.deep_view() == drop_expired(self.layout@, self@.pending, now),
    {
        let ghost l = self.layout@;
        let ghost pv = self@.pending;
        let mut r: Vec<(String, u64)> = Vec::new();
        let mut i: usize = 0;
        assert(pv.take(0) =~= Seq::<(Seq<char>, u64)>::empty());
        assert(r.deep_view() =~= Seq::<(Seq<char>, u64)>::empty());
        while i < self.pending_keys.len()
            invariant
                i <= self.pending_keys.len(),
                l == self.layout@,
                pv == self@.pending,
                pv.len() == self.pending_keys@.len(),
                r.deep_view() == drop_expired(l, pv.take(i as int), now),
            decreases self.pending_keys.len() - i,
        {
            assert(pv.take(i + 1).drop_last() =~= pv.take(i as int));
            let (key, at) = (&self.pending_keys[i].0, self.pending_keys[i].1);
            assert(pv.take(i + 1).last() == (key@, at));
            let expired = if has_timed_chord_candidate(&self.layout, key.as_str()) {
                match at.checked_add(chord_window_for(&self.layout, key.as_str()) as u64) {
                    Some(end) => now >= end,
                    None => false,
                }
            } else if has_mutual_chord_candidate(&self.layout, key.as_str()) {
                match at.checked_add(self.layout.settings.mutual_window_ms as u64) {
                    Some(end) => now >= end,
                    None => false,
                }
            } else {
                false
            };
            assert(expired == pending_expired(l, (key@, at), now));
            if !expired {
                let ghost before = r.deep_view();
                r.push((key.clone(), at));
                assert(r.deep_view() =~= before.push((key@, at)));
            }
            i = i + 1;
        }
        assert(pv.take(i as int) =~= pv);
        r
    }

    /// Chord timer: drop the pending keys whose chord window has closed;
    /// once the earliest deadline has passed, confirm every expired
    /// tentative character and emit its deferred tail tokens.
    pub fn tick(&mut self, now: u64) -> (r: Vec<OutputAction>)
        requires
            old(self).wf(),
        ensures
            final(self).wf(),
            final(self).layout_view() == old(self).layout_view(),
            final(self)@ == machine::tick(old(self).layout_view(), old(self)@, now).0,
            r.deep_view() == machine::tick(old(self).layout_view(), old(self)@, now).1,
    {
        self.pending_keys = self.pending_unexpired(now);
        let ghost p1 = self.pending_keys.deep_view();
        let mut actions = no_actions();
        let deadline = match self.chord_deadline {
            Some(d) => d,
            None => {
                return actions;
            },
        };
        if now < deadline {
            return actions;
        }
        let ghost t = self.tentative_buffer.deep_view();
        let mut tails: Vec<TentativeChar> = Vec::new();
        let mut i: usize = 0;
        assert(t.take(0) =~= Seq::<TentV>::empty());
        assert(tails.deep_view() =~= Seq::<TentV>::empty());
        while i < self.tentative_buffer.len()
            invariant
                i <= self.tentative_buffer.len(),
                t.len() == self.tentative_buffer@.len(),
                self.layout == old(self).layout,
                self.modifier_states == old(self).modifier_states,
                self.pending_keys.deep_view() == p1,
                self.direct_trigger_state == old(self).direct_trigger_state,
                self.direct_trigger_interrupted == old(self).direct_trigger_interrupted,
                self.mozc_mode == old(self).mozc_mode,
                self.chord_deadline == old(self).chord_deadline,
                self.held_keys == old(self).held_keys,
                self.preedit_kept == old(self).preedit_kept,
                t == old(self)@.tentative,
                forall|j: int| 0 <= j < i ==> (#[trigger] self.tentative_buffer@[j])@ == tick_tent(t[j], now),
                forall|j: int| i <= j < t.len() ==> (#[trigger] self.tentative_buffer@[j])@ == t[j],
                actions.deep_view() == tick_actions(t.take(i as int), now),
                tails.deep_view() == tail_entries(t.take(i as int), now),
            decreases self.tentative_buffer.len() - i,
        {
            assert(t.take(i + 1).drop_last() =~= t.take(i as int));
            assert(t.take(i + 1).last() == t[i as int]);
            let tc = &self.tentative_buffer[i];
            assert(tc@ == t[i as int]);
            let expired = match tc.rewrite_deadline {
                Some(d) => now >= d,
                None => false,
            };
            if expired {
                let tail = actions_for(&tc.pending_tail);
                let mut more: Vec<TentativeChar> = Vec::new();
                assert(more.deep_view() =~= Seq::<TentV>::empty());
                emit_sequence(&mut more, &tc.pending_tail, &tc.source_keys, None);
                confirm_all(&mut more);
                let ghost before = tails.deep_view();
                let ghost mv = more.deep_view();
                tails.append(&mut more);
                assert(tails.deep_view() =~= before + mv);
                let ntc = TentativeChar {
                    kana: tc.kana.clone(),
                    source_keys: clone_strings(&tc.source_keys),
                    rewrite_deadline: None,
                    pending_tail: Vec::new(),
                    confirmed: true,
                };
                assert(ntc.pending_tail.deep_view() =~= Seq::<Seq<char>>::empty());
                assert(ntc@ == tick_tent(t[i as int], now));
                self.tentative_buffer.set(i, ntc);
                extend_actions(&mut actions, tail);
            } else {
                let ghost a = actions.deep_view();
                assert(a + Seq::<ActionV>::empty() =~= a);
                let ghost b = tails.deep_view();
                assert(b + Seq::<TentV>::empty() =~= b);
            }
            i = i + 1;
        }
        assert(t.take(i as int) =~= t);
        let ghost ts = Seq::new(t.len(), |j: int| tick_tent(t[j], now));
        assert(self.tentative_buffer.deep_view() =~= ts);
        let ghost tv = tails.deep_view();
        self.tentative_buffer.append(&mut tails);
        assert(self.tentative_buffer.deep_view() =~= ts + tv);
        self.chord_deadline = min_rewrite_deadline(&self.tentative_buffer);
        actions
    }

    /// Reset all transient state (e.g. on a focus change): erase tentative
    /// output and release every modifier and trigger.
    pub fn reset(&mut self) -> (r: Vec<OutputAction>)
        requires
            old(self).wf(),
        ensures
            final(self).wf(),
            final(self).layout_view() == old(self).layout_view(),
            final(self)@ == machine::reset(old(self)@).0,
            r.deep_view() == machine::reset(old(self)@).1,
    {
        let ghost ms = self@.mods;
        let mut i: usize = 0;
        while i < self.modifier_states.len()
            invariant
                i <= self.modifier_states.len(),
                ms.len() == self.modifier_states@.len(),
                self.layout == old(self).layout,
                self.tentative_buffer == old(self).tentative_buffer,
                ms == old(self)@.mods,
                forall|j: int| 0 <= j < i ==> (#[trigger] self.modifier_states@[j])@ == reset_mod(ms[j]),
                forall|j: int| i <= j < ms.len() ==> (#[trigger] self.modifier_states@[j])@ == ms[j],
            decreases self.modifier_states.len() - i,
        {
            let m = &self.modifier_states[i];
            let nm = ModifierState {
                id: m.id.clone(),
                held: false,
                interrupted: false,
                pressed_at: m.pressed_at,
                oneshot_pending: false,
                toggled: false,
            };
            self.modifier_states.set(i, nm);
            i = i + 1;
        }
        assert(self.tentative_buffer == old(self).tentative_buffer);
        let actions = self.flush_tentative();
        self.pending_keys.clear();
        self.mozc_mode = MozcMode::Composition;
        self.chord_deadline = None;
        self.direct_trigger_state = DirectTriggerState::Inactive;
        self.direct_trigger_interrupted = false;
        self.held_keys.clear();
        self.preedit_kept = false;
        assert(self.modifier_states.deep_view() =~= Seq::new(ms.len(), |j: int| reset_mod(ms[j])));
        assert(self.pending_keys.deep_view() =~= Seq::<(Seq<char>, u64)>::empty());
        assert(self.held_keys.deep_view() =~= Seq::<Seq<char>>::empty());
        actions
    }
}


impl StateMachine {
    /// Whether a machine can run on `layout`: every base-layer output is the
    /// passthrough cell or resolves to at least one token.
    pub fn accepts_layout(layout: &Layout) -> (b: bool)
        ensures
            b == (forall|i: int|
                0 <= i < layout@.base_layer.len() ==> base_output_ok(layout@, #[trigger] layout@.base_layer[i].1)),
            b ==> layout_ok(layout@),
    {
        let ghost l = layout@;
        let ghost base = l.base_layer;
        let mut i: usize = 0;
        while i < layout.base_layer.entries.len()
            invariant
                i <= layout.base_layer.entries.len(),
                l == layout@,
                base == l.base_layer,
                base.len() == layout.base_layer.entries@.len(),
                forall|j: int| 0 <= j < i ==> base_output_ok(l, #[trigger] base[j].1),
            decreases layout.base_layer.entries.len() - i,
        {
            let v = &layout.base_layer.entries[i].1;
            assert(base[i as int].1 == v@);
            if !str_eq(v.as_str(), PASSTHROUGH_CELL) && resolve_sequence(layout, v.as_str()).len() == 0 {
                return false;
            }
            i = i + 1;
        }
        proof {
            assert forall|k: Seq<char>| #[trigger] base_lookup(l, k) is Some implies base_output_ok(
                l,
                base_lookup(l, k).unwrap(),
            ) by {
                lemma_assoc_index(base, k);
            }
        }
        true
    }
}


impl StateMachine {
    /// The layout's settings.
    pub fn settings(&self) -> (s: Settings)
        ensures
            s == self.layout_view().settings,
    {
        self.layout.settings
    }
}

} // verus!
