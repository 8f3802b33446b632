//! Mathematical model of the input state machine: its state, the actions it
//! emits, and one step function per event.
use vstd::prelude::*;
use crate::config::{
    LayoutV, ModifierDefV, ChordRuleV, DirectRuleV, ModifierKind, HoldDetection, TapAction,
    TriggerKind, LayoutMode, Table, strip_mods, PASSTHROUGH_CELL,
};
use crate::strmap::assoc_get;
use crate::text::spec_split_ws;

verus! {

/// Model of an output action.
pub enum ActionV {
    SendKana(Seq<char>),
    Backspace,
    CommitDirect(Seq<char>),
    SubmitAndCommit(Seq<char>),
    Passthrough(Seq<char>),
    SubmitThenPassthrough(Seq<char>),
    MozcSubmit,
    SendFunctionKey(Seq<char>),
    SendModifiedKey { key: Seq<char>, mods: u8 },
}

/// Model of a tentative (speculatively sent, still rewritable) character.
/// It is `confirmed` once one of its source keys has been released: chords
/// no longer rewrite it.
pub struct TentV {
    pub kana: Seq<char>,
    pub source_keys: Seq<Seq<char>>,
    pub deadline: Option<u64>,
    pub tail: Seq<Seq<char>>,
    pub confirmed: bool,
}

/// Model of the state of one modifier key.
pub struct ModStateV {
    pub id: Seq<char>,
    pub held: bool,
    pub interrupted: bool,
    pub pressed_at: u64,
    pub oneshot_pending: bool,
    pub toggled: bool,
}

/// Model of the state machine's mutable state.
pub struct SmState {
    pub pending: Seq<(Seq<char>, u64)>,
    pub tentative: Seq<TentV>,
    pub mods: Seq<ModStateV>,
    pub direct_active: bool,
    pub direct_interrupted: bool,
    pub converting: bool,
    pub chord_deadline: Option<u64>,
    pub held: Seq<Seq<char>>,
    /// Kana stand in the preedit that no tentative character tracks any
    /// more (left there when direct input took over).
    pub preedit_kept: bool,
}

pub type Step = (SmState, Seq<ActionV>);

// ── Tokens and actions ───────────────────────────────────────────────────────

pub open spec fn is_mod_prefix(t: Seq<char>) -> bool {
    t.len() >= 2 && t[1] == '-' && (t[0] == 'S' || t[0] == 'C' || t[0] == 'A' || t[0] == 'M')
}

pub open spec fn mod_bit(c: char) -> u8 {
    if c == 'S' {
        1
    } else if c == 'C' {
        2
    } else if c == 'A' {
        4
    } else {
        8
    }
}

/// Modifier bits of the leading prefixes of `t`, or-ed into `acc`.
pub open spec fn mods_acc(t: Seq<char>, acc: u8) -> u8
    decreases t.len(),
{
    if is_mod_prefix(t) {
        mods_acc(t.subrange(2, t.len() as int), acc | mod_bit(t[0]))
    } else {
        acc
    }
}

/// Whether a token is emitted at once rather than speculatively: a function
/// key (`!Name`) or a modifier combination (`S-`, `C-`, `A-`, `M-`).
pub open spec fn is_immediate(t: Seq<char>) -> bool {
    (t.len() > 0 && t[0] == '!') || is_mod_prefix(t)
}

/// The action for one output token.
pub open spec fn make_action(t: Seq<char>) -> ActionV {
    let m = mods_acc(t, 0);
    let rest = strip_mods(t);
    if m != 0 {
        ActionV::SendModifiedKey {
            key: if rest.len() > 0 && rest[0] == '!' {
                rest.drop_first()
            } else {
                rest
            },
            mods: m,
        }
    } else if t.len() > 0 && t[0] == '!' {
        ActionV::SendFunctionKey(t.drop_first())
    } else {
        ActionV::SendKana(t)
    }
}

pub open spec fn actions_of(ts: Seq<Seq<char>>) -> Seq<ActionV> {
    Seq::new(ts.len(), |i: int| make_action(ts[i]))
}

/// Tokens of a raw output: an alias's tokens, the words of a string with a
/// space in it, or the string itself.
pub open spec fn resolve(l: LayoutV, raw: Seq<char>) -> Seq<Seq<char>> {
    match assoc_get(l.aliases, raw) {
        Some(ts) => ts,
        None => if raw.contains(' ') {
            spec_split_ws(raw)
        } else {
            seq![raw]
        },
    }
}

pub open spec fn backspaces(n: nat) -> Seq<ActionV> {
    Seq::new(n, |i: int| ActionV::Backspace)
}

/// Number of characters the tentative characters occupy in the preedit: one
/// backspace erases one of them.
pub open spec fn char_count(ts: Seq<TentV>) -> nat
    decreases ts.len(),
{
    if ts.len() == 0 {
        0
    } else {
        char_count(ts.drop_last()) + ts.last().kana.len()
    }
}

/// Emit a token sequence: one action per token; every token whose action is
/// not a function key or modifier combination becomes a tentative character.
pub open spec fn emit(tent: Seq<TentV>, tokens: Seq<Seq<char>>, src: Seq<Seq<char>>, dl: Option<u64>) -> (
    Seq<TentV>,
    Seq<ActionV>,
)
    decreases tokens.len(),
{
    if tokens.len() == 0 {
        (tent, Seq::empty())
    } else {
        let a = make_action(tokens[0]);
        let skip = a is SendFunctionKey || a is SendModifiedKey;
        let tent1 = if skip {
            tent
        } else {
            tent.push(TentV { kana: tokens[0], source_keys: src, deadline: dl, tail: Seq::empty(), confirmed: false })
        };
        let r = emit(tent1, tokens.drop_first(), src, dl);
        (r.0, seq![a] + r.1)
    }
}

pub open spec fn min_opt(a: Option<u64>, b: Option<u64>) -> Option<u64> {
    match (a, b) {
        (None, x) => x,
        (Some(x), None) => Some(x),
        (Some(x), Some(y)) => Some(
            if x <= y {
                x
            } else {
                y
            },
        ),
    }
}

/// Earliest rewrite deadline among tentative characters.
pub open spec fn min_deadline(ts: Seq<TentV>) -> Option<u64>
    decreases ts.len(),
{
    if ts.len() == 0 {
        None
    } else {
        min_opt(min_deadline(ts.drop_last()), ts.last().deadline)
    }
}

pub open spec fn flush(s: SmState) -> Step {
    (SmState { tentative: Seq::empty(), ..s }, backspaces(char_count(s.tentative)))
}

// ── Layout queries ───────────────────────────────────────────────────────────

pub open spec fn modifier_index_from(ms: Seq<ModifierDefV>, key: Seq<char>, i: int) -> Option<int>
    decreases ms.len() - i,
{
    if i < 0 || i >= ms.len() {
        None
    } else if ms[i].key == key {
        Some(i)
    } else {
        modifier_index_from(ms, key, i + 1)
    }
}

pub open spec fn modifier_index(l: LayoutV, key: Seq<char>) -> Option<int> {
    modifier_index_from(l.modifiers, key, 0)
}

pub open spec fn is_direct_trigger_key(l: LayoutV, key: Seq<char>) -> bool {
    match l.direct_trigger {
        Some(dt) => dt.keys.contains(key),
        None => false,
    }
}

pub open spec fn lookup_base(l: LayoutV, key: Seq<char>) -> Option<Seq<char>> {
    assoc_get(l.base_layer, key)
}

pub open spec fn has_timed_chord(l: LayoutV, key: Seq<char>) -> bool {
    exists|i: int|
        0 <= i < l.chords.len() && !(#[trigger] l.chords[i]).symmetric && l.chords[i].keys.contains(key)
            && l.chords[i].keys.len() > 1
}

pub open spec fn has_mutual_chord(l: LayoutV, key: Seq<char>) -> bool {
    exists|i: int|
        0 <= i < l.chords.len() && (#[trigger] l.chords[i]).symmetric && l.chords[i].keys.contains(key)
            && l.chords[i].keys.len() > 1
}

pub open spec fn pending_keys(s: SmState) -> Seq<Seq<char>> {
    Seq::new(s.pending.len(), |i: int| s.pending[i].0)
}

pub open spec fn has_prefix_continuation(l: LayoutV, s: SmState) -> bool {
    s.pending.len() > 0 && exists|i: int|
        0 <= i < l.prefix_layers.len() && (#[trigger] l.prefix_layers[i]).0 == s.pending[0].0
}

pub open spec fn has_postfix_candidate(l: LayoutV, key: Seq<char>) -> bool {
    exists|i: int| 0 <= i < l.postfix_layers.len() && (#[trigger] l.postfix_layers[i]).0 == key
}

/// Window of the first timed chord on `key` that sets one, else the default.
pub open spec fn chord_window_from(cs: Seq<ChordRuleV>, key: Seq<char>, i: int, dflt: u32) -> u32
    decreases cs.len() - i,
{
    if i < 0 || i >= cs.len() {
        dflt
    } else if !cs[i].symmetric && cs[i].keys.contains(key) && cs[i].window_ms is Some {
        cs[i].window_ms.unwrap()
    } else {
        chord_window_from(cs, key, i + 1, dflt)
    }
}

pub open spec fn chord_window(l: LayoutV, key: Seq<char>) -> u32 {
    chord_window_from(l.chords, key, 0, l.settings.chord_window_ms)
}

pub open spec fn is_mozc_control(key: Seq<char>) -> bool {
    key == "space"@
        || key == "Return"@
        || key == "Tab"@
        || key == "Left"@
        || key == "Right"@
        || key == "Up"@
        || key == "Down"@
        || key == "Home"@
        || key == "End"@
        || key == "Prior"@
        || key == "Next"@
        || key == "Delete"@
        || key == "Escape"@
        || key == "Henkan"@
        || key == "Muhenkan"@
        || key == "Hiragana_Katakana"@
}

// ── Rule matching ────────────────────────────────────────────────────────────

/// A matched rule: its raw output, the keys it consumes, and whether it is a
/// chord (chords leave confirmed characters alone; sequences do not).
pub type RuleV = (Seq<char>, Seq<Seq<char>>, bool);

pub open spec fn prefix_match_from(l: LayoutV, keys: Seq<Seq<char>>, i: int) -> Option<RuleV>
    decreases l.prefix_layers.len() - i,
{
    if i < 0 || i >= l.prefix_layers.len() || keys.len() == 0 {
        None
    } else {
        let (trigger, grid) = l.prefix_layers[i];
        let last = keys[keys.len() - 1];
        if keys[0] == trigger && assoc_get(grid, last) is Some && keys.len() == 2 && keys[0] == trigger
            && keys[1] == last {
            Some((assoc_get(grid, last).unwrap(), keys, false))
        } else {
            prefix_match_from(l, keys, i + 1)
        }
    }
}

pub open spec fn chord_match_from(l: LayoutV, keys: Seq<Seq<char>>, i: int) -> Option<RuleV>
    decreases l.chords.len() - i,
{
    if i < 0 || i >= l.chords.len() {
        None
    } else if !l.chords[i].symmetric && l.chords[i].keys.to_set() == keys.to_set() {
        Some((l.chords[i].output, keys, true))
    } else {
        chord_match_from(l, keys, i + 1)
    }
}

/// A prefix-layer sequence or timed chord completed by the pending keys.
pub open spec fn try_resolve_pending(l: LayoutV, s: SmState) -> Option<RuleV> {
    if s.pending.len() < 2 {
        None
    } else {
        let keys = pending_keys(s);
        match prefix_match_from(l, keys, 0) {
            Some(r) => Some(r),
            None => chord_match_from(l, keys, 0),
        }
    }
}

pub open spec fn postfix_match_from(l: LayoutV, key: Seq<char>, prev: Seq<Seq<char>>, i: int) -> Option<RuleV>
    decreases l.postfix_layers.len() - i,
{
    if i < 0 || i >= l.postfix_layers.len() {
        None
    } else {
        let (trigger, grid) = l.postfix_layers[i];
        if key == trigger && prev.len() > 0 && assoc_get(grid, prev[0]) is Some {
            Some((assoc_get(grid, prev[0]).unwrap(), prev.push(key), false))
        } else {
            postfix_match_from(l, key, prev, i + 1)
        }
    }
}

/// A postfix rule: `key` triggers a postfix layer for the last tentative character.
pub open spec fn try_resolve_postfix(l: LayoutV, s: SmState, key: Seq<char>) -> Option<RuleV> {
    if s.tentative.len() == 0 {
        None
    } else {
        postfix_match_from(l, key, s.tentative.last().source_keys, 0)
    }
}

/// Whether a tentative character was made from `keys` alone.
pub open spec fn within(tc: TentV, keys: Seq<Seq<char>>) -> bool {
    forall|j: int| 0 <= j < tc.source_keys.len() ==> keys.contains(#[trigger] tc.source_keys[j])
}

/// Whether a rule on `keys` rewrites a tentative character: one made from
/// its keys alone, and for a chord one that is not confirmed yet.
pub open spec fn rewritable(tc: TentV, keys: Seq<Seq<char>>, chord: bool) -> bool {
    (!chord || !tc.confirmed) && within(tc, keys)
}

/// Number of trailing tentative characters a rule on `keys` rewrites.
pub open spec fn rewrite_count(ts: Seq<TentV>, keys: Seq<Seq<char>>, chord: bool) -> nat
    decreases ts.len(),
{
    if ts.len() == 0 {
        0
    } else if rewritable(ts.last(), keys, chord) {
        1 + rewrite_count(ts.drop_last(), keys, chord)
    } else {
        0
    }
}

/// BS-rewrite of the last `n` tentative characters: one backspace per
/// character they occupy in the preedit, then the output `tokens`.
pub open spec fn rewrite(s: SmState, n: nat, tokens: Seq<Seq<char>>, src: Seq<Seq<char>>) -> (Seq<TentV>, Seq<ActionV>) {
    let keep = s.tentative.len() - n;
    let r = emit(s.tentative.take(keep), tokens, src, None);
    (r.0, backspaces(char_count(s.tentative.skip(keep))) + r.1)
}

/// BS-rewrite: erase the trailing tentative characters the rule replaces,
/// then emit the rule's output.
pub open spec fn apply_rule(l: LayoutV, s: SmState, rule: RuleV) -> Step {
    let r = rewrite(s, rewrite_count(s.tentative, rule.1, rule.2), resolve(l, rule.0), rule.1);
    (SmState { tentative: r.0, pending: Seq::empty(), chord_deadline: min_deadline(r.0), ..s }, r.1)
}

/// Whether chord `i` is a mutual chord on `key` whose keys are all held.
pub open spec fn mutual_candidate(l: LayoutV, held: Seq<Seq<char>>, key: Seq<char>, i: int) -> bool {
    &&& l.chords[i].symmetric
    &&& l.chords[i].keys.contains(key)
    &&& forall|j: int| 0 <= j < l.chords[i].keys.len() ==> held.contains(#[trigger] l.chords[i].keys[j])
}

/// The longest mutual chord from index `i` on that fires for `key` with
/// `held` held; of equally long ones, the first.
pub open spec fn mutual_chord_from(l: LayoutV, held: Seq<Seq<char>>, key: Seq<char>, i: int) -> Option<int>
    decreases l.chords.len() - i,
{
    if i < 0 || i >= l.chords.len() {
        None
    } else {
        let rest = mutual_chord_from(l, held, key, i + 1);
        if mutual_candidate(l, held, key, i) && match rest {
            Some(c) => l.chords[i].keys.len() >= l.chords[c].keys.len(),
            None => true,
        } {
            Some(i)
        } else {
            rest
        }
    }
}

pub open spec fn pending_without(p: Seq<(Seq<char>, u64)>, ks: Seq<Seq<char>>) -> Seq<(Seq<char>, u64)>
    decreases p.len(),
{
    if p.len() == 0 {
        p
    } else {
        let rest = pending_without(p.drop_last(), ks);
        if ks.contains(p.last().0) {
            rest
        } else {
            rest.push(p.last())
        }
    }
}

/// Fire a mutual chord: erase the tentative characters it replaces (the
/// speculative output of its keys, or a shorter chord's output, while their
/// keys are still held), drop its keys from the pending keys, then emit the
/// chord's output.
pub open spec fn fire_mutual(l: LayoutV, s: SmState, c: int) -> Step {
    let chord = l.chords[c];
    let r = rewrite(s, rewrite_count(s.tentative, chord.keys, true), resolve(l, chord.output), chord.keys);
    (
        SmState { tentative: r.0, pending: pending_without(s.pending, chord.keys), chord_deadline: min_deadline(r.0), ..s },
        r.1,
    )
}

} // verus!

verus! {

// ── Speculative emission ─────────────────────────────────────────────────────

pub open spec fn earlier_deadline(existing: Option<u64>, d: u64) -> Option<u64> {
    Some(
        match existing {
            Some(e) => if e <= d {
                e
            } else {
                d
            },
            None => d,
        },
    )
}

/// Emission for a key whose base output is `out` (the key already pending).
pub open spec fn emit_base(l: LayoutV, s: SmState, key: Seq<char>, now: u64, out: Seq<char>) -> Step {
    let timed = has_timed_chord(l, key);
    let mutual = has_mutual_chord(l, key);
    let pre = has_prefix_continuation(l, s);
    let post = has_postfix_candidate(l, key);
    if out == PASSTHROUGH_CELL@ {
        (SmState { pending: s.pending.drop_last(), ..s }, seq![ActionV::Passthrough(key)])
    } else {
        let tokens = resolve(l, out);
        if (tokens.len() > 0 && is_immediate(tokens[0])) || (tokens.len() > 1 && !(timed || mutual || pre
            || post)) {
            let r = emit(s.tentative, tokens, seq![key], None);
            (SmState { pending: Seq::empty(), tentative: r.0, ..s }, r.1)
        } else {
            let kana = tokens[0];
            let tail = tokens.drop_first();
            if timed {
                let dl = (now + chord_window(l, key)) as u64;
                (
                    SmState {
                        chord_deadline: earlier_deadline(s.chord_deadline, dl),
                        tentative: s.tentative.push(
                            TentV { kana, source_keys: seq![key], deadline: Some(dl), tail, confirmed: false },
                        ),
                        ..s
                    },
                    seq![ActionV::SendKana(kana)],
                )
            } else if mutual {
                let dl = (now + l.settings.mutual_window_ms) as u64;
                (
                    SmState {
                        chord_deadline: earlier_deadline(s.chord_deadline, dl),
                        tentative: s.tentative.push(
                            TentV { kana, source_keys: seq![key], deadline: Some(dl), tail, confirmed: false },
                        ),
                        ..s
                    },
                    seq![ActionV::SendKana(kana)],
                )
            } else if pre || post {
                (
                    SmState {
                        tentative: s.tentative.push(
                            TentV { kana, source_keys: seq![key], deadline: None, tail, confirmed: false },
                        ),
                        ..s
                    },
                    seq![ActionV::SendKana(kana)],
                )
            } else {
                (
                    SmState {
                        pending: Seq::empty(),
                        tentative: s.tentative.push(
                            TentV {
                                kana,
                                source_keys: seq![key],
                                deadline: None,
                                tail: Seq::empty(),
                                confirmed: false,
                            },
                        ),
                        ..s
                    },
                    seq![ActionV::SendKana(kana)] + actions_of(tail),
                )
            }
        }
    }
}

/// Emission for a key without a base output (the key already pending).
pub open spec fn emit_unassigned(l: LayoutV, s: SmState, key: Seq<char>) -> Step {
    if !has_timed_chord(l, key) && !has_mutual_chord(l, key) {
        let s1 = SmState { pending: s.pending.drop_last(), ..s };
        if s1.tentative.len() > 0 || s1.converting || s1.preedit_kept {
            if is_mozc_control(key) {
                (s1, seq![ActionV::SendFunctionKey(key)])
            } else {
                (
                    SmState {
                        tentative: Seq::empty(),
                        pending: Seq::empty(),
                        converting: false,
                        preedit_kept: false,
                        ..s1
                    },
                    seq![ActionV::SubmitThenPassthrough(key)],
                )
            }
        } else {
            (s1, seq![ActionV::Passthrough(key)])
        }
    } else {
        (s, Seq::empty())
    }
}

/// Speculative emission for a key that was just pushed onto the pending keys.
pub open spec fn speculative(l: LayoutV, s: SmState, key: Seq<char>, now: u64) -> Step {
    match try_resolve_pending(l, s) {
        Some(rule) => apply_rule(l, s, rule),
        None => match try_resolve_postfix(l, s, key) {
            Some(rule) => apply_rule(l, s, rule),
            None => match lookup_base(l, key) {
                None => emit_unassigned(l, s, key),
                Some(out) => emit_base(l, s, key, now, out),
            },
        },
    }
}

// ── Direct (kanchoku) input ──────────────────────────────────────────────────

pub open spec fn direct_rule_from(ds: Seq<DirectRuleV>, keys: Seq<Seq<char>>, i: int) -> Option<int>
    decreases ds.len() - i,
{
    if i < 0 || i >= ds.len() {
        None
    } else if ds[i].sequence == keys {
        Some(i)
    } else {
        direct_rule_from(ds, keys, i + 1)
    }
}

pub open spec fn has_direct_continuation(ds: Seq<DirectRuleV>, keys: Seq<Seq<char>>) -> bool {
    exists|i: int|
        0 <= i < ds.len() && (#[trigger] ds[i]).sequence.len() > keys.len() && ds[i].sequence.take(
            keys.len() as int,
        ) == keys
}

pub open spec fn commit_action(t: Seq<char>) -> ActionV {
    if is_immediate(t) {
        make_action(t)
    } else {
        ActionV::CommitDirect(t)
    }
}

pub open spec fn commit_actions(ts: Seq<Seq<char>>) -> Seq<ActionV> {
    Seq::new(ts.len(), |i: int| commit_action(ts[i]))
}

/// A submit of the preedit when it holds kana, else nothing.
pub open spec fn submit_if(kana_in_preedit: bool) -> Seq<ActionV> {
    if kana_in_preedit {
        seq![ActionV::MozcSubmit]
    } else {
        Seq::empty()
    }
}

/// A key in direct mode: collect it; commit the output of a completed rule
/// (after erasing any tentative characters and submitting the preedit when
/// kana stand in it); drop the keys when no rule can still complete.
pub open spec fn direct_key(l: LayoutV, s: SmState, key: Seq<char>, now: u64) -> Step {
    let s1 = SmState { direct_interrupted: true, pending: s.pending.push((key, now)), ..s };
    let keys = pending_keys(s1);
    match direct_rule_from(l.directs, keys, 0) {
        Some(i) => {
            let f = flush(SmState { pending: Seq::empty(), preedit_kept: false, ..s1 });
            (
                f.0,
                f.1 + submit_if(s.tentative.len() > 0 || s.preedit_kept) + commit_actions(
                    resolve(l, l.directs[i].output),
                ),
            )
        },
        None => if has_direct_continuation(l.directs, keys) {
            (s1, Seq::empty())
        } else {
            (SmState { pending: Seq::empty(), ..s1 }, Seq::empty())
        },
    }
}

pub open spec fn trigger_kind(l: LayoutV) -> TriggerKind {
    match l.direct_trigger {
        Some(dt) => dt.kind,
        None => TriggerKind::Hold,
    }
}

/// The direct trigger went down. Activation stops tracking the tentative
/// characters: their kana stay in the preedit as typed.
pub open spec fn direct_down(l: LayoutV, s: SmState) -> Step {
    match trigger_kind(l) {
        TriggerKind::Hold => (
            SmState {
                direct_interrupted: false,
                direct_active: true,
                tentative: Seq::empty(),
                pending: Seq::empty(),
                chord_deadline: None,
                preedit_kept: s.preedit_kept || s.tentative.len() > 0,
                ..s
            },
            Seq::empty(),
        ),
        TriggerKind::Toggle => if !s.direct_active {
            (
                SmState {
                    direct_active: true,
                    tentative: Seq::empty(),
                    pending: Seq::empty(),
                    chord_deadline: None,
                    preedit_kept: s.preedit_kept || s.tentative.len() > 0,
                    ..s
                },
                Seq::empty(),
            )
        } else {
            (SmState { direct_active: false, pending: Seq::empty(), ..s }, Seq::empty())
        },
    }
}

pub open spec fn direct_up(l: LayoutV, s: SmState, key: Seq<char>) -> Step {
    if trigger_kind(l) != TriggerKind::Hold {
        (s, Seq::empty())
    } else {
        let tap = match l.direct_trigger {
            Some(dt) => dt.tap_action,
            None => TapAction::Passthrough,
        };
        let s1 = SmState { direct_active: false, pending: Seq::empty(), ..s };
        if !s.direct_interrupted && tap == TapAction::Passthrough {
            (s1, seq![ActionV::Passthrough(key)])
        } else {
            (s1, Seq::empty())
        }
    }
}

// ── Modifiers ────────────────────────────────────────────────────────────────

pub open spec fn press_mod(m: ModStateV, kind: ModifierKind, now: u64) -> ModStateV {
    let m1 = ModStateV { interrupted: false, pressed_at: now, ..m };
    match kind {
        ModifierKind::Toggle => ModStateV { toggled: !m.toggled, ..m1 },
        ModifierKind::Oneshot => ModStateV { oneshot_pending: true, ..m1 },
        ModifierKind::Hold => ModStateV { held: true, ..m1 },
    }
}

pub open spec fn interrupt_held(ms: Seq<ModStateV>) -> Seq<ModStateV> {
    Seq::new(
        ms.len(),
        |i: int|
            if ms[i].held {
                ModStateV { interrupted: true, ..ms[i] }
            } else {
                ms[i]
            },
    )
}

pub open spec fn clear_oneshot(ms: Seq<ModStateV>) -> Seq<ModStateV> {
    Seq::new(ms.len(), |i: int| ModStateV { oneshot_pending: false, ..ms[i] })
}

pub open spec fn elapsed_ms(now: u64, since: u64) -> u32 {
    #[verifier::truncate]
    ((if now >= since {
        now - since
    } else {
        0
    }) as u32)
}

/// Whether a modifier's layer is in effect at `now`.
pub open spec fn mod_active(m: ModStateV, def: ModifierDefV, now: u64) -> bool {
    m.oneshot_pending || m.toggled || (m.held && match def.hold_detection {
        HoldDetection::Timeout => elapsed_ms(now, m.pressed_at) >= def.hold_timeout_ms,
        HoldDetection::Interrupt => true,
    })
}

pub open spec fn layer_lookup_from(layers: Seq<(Seq<char>, Table)>, id: Seq<char>, key: Seq<char>, j: int) -> Option<Seq<char>>
    decreases layers.len() - j,
{
    if j < 0 || j >= layers.len() {
        None
    } else if layers[j].0 == id && assoc_get(layers[j].1, key) is Some {
        assoc_get(layers[j].1, key)
    } else {
        layer_lookup_from(layers, id, key, j + 1)
    }
}

/// Output of `key` in the layer of the first active modifier that maps it.
pub open spec fn modified_from(l: LayoutV, ms: Seq<ModStateV>, key: Seq<char>, now: u64, i: int) -> Option<Seq<char>>
    decreases ms.len() - i,
{
    if i < 0 || i >= ms.len() || i >= l.modifiers.len() {
        None
    } else if mod_active(ms[i], l.modifiers[i], now) && layer_lookup_from(
        l.modified_layers,
        ms[i].id,
        key,
        0,
    ) is Some {
        layer_lookup_from(l.modified_layers, ms[i].id, key, 0)
    } else {
        modified_from(l, ms, key, now, i + 1)
    }
}

pub open spec fn held_remove(h: Seq<Seq<char>>, k: Seq<char>) -> Seq<Seq<char>>
    decreases h.len(),
{
    if h.len() == 0 {
        h
    } else {
        let rest = held_remove(h.drop_last(), k);
        if h.last() == k {
            rest
        } else {
            rest.push(h.last())
        }
    }
}

pub open spec fn is_backspace_key(key: Seq<char>) -> bool {
    key == "bs"@ || key == "BackSpace"@ || key == "backspace"@
}

pub open spec fn backspace(s: SmState) -> Step {
    if s.tentative.len() > 0 {
        (
            SmState { tentative: s.tentative.drop_last(), pending: Seq::empty(), ..s },
            backspaces(s.tentative.last().kana.len()),
        )
    } else if s.pending.len() > 0 {
        (SmState { pending: Seq::empty(), ..s }, Seq::empty())
    } else {
        (s, seq![ActionV::Backspace])
    }
}

// ── Events ───────────────────────────────────────────────────────────────────

/// Whether a key is tracked as held: every ordinary key but BackSpace and
/// the converter's control keys, whose auto-repeat stays in effect.
pub open spec fn tracks_held(key: Seq<char>) -> bool {
    !is_backspace_key(key) && !is_mozc_control(key)
}

/// In a hybrid layout without a direct trigger the `[[direct]]` rules stay
/// active beside the kana rules. A key goes to direct input when, with the
/// keys pending before it, it completes a direct sequence that no kana rule
/// completes (kana wins a conflict), or when a direct sequence may still
/// complete (a direct candidate waits silently, kana candidates or not).
pub open spec fn hybrid_direct(l: LayoutV, s: SmState, key: Seq<char>, now: u64) -> bool {
    let s1 = SmState { pending: s.pending.push((key, now)), ..s };
    let keys = pending_keys(s1);
    &&& l.meta.mode == LayoutMode::Hybrid
    &&& l.direct_trigger is None
    &&& match direct_rule_from(l.directs, keys, 0) {
        Some(_) => try_resolve_pending(l, s1) is None,
        None => has_direct_continuation(l.directs, keys),
    }
}

/// A key claimed by a direct sequence in a hybrid layout without a trigger:
/// it waits with the keys before it, or it completes the sequence. The kana
/// typed before a completed sequence stay in the preedit as they are, and are
/// submitted before the kanji is committed.
pub open spec fn hybrid_direct_key(l: LayoutV, s: SmState, key: Seq<char>, now: u64) -> Step {
    if direct_rule_from(l.directs, pending_keys(s).push(key), 0) is Some {
        direct_key(
            l,
            SmState {
                tentative: Seq::empty(),
                chord_deadline: None,
                preedit_kept: s.preedit_kept || s.tentative.len() > 0,
                ..s
            },
            key,
            now,
        )
    } else {
        direct_key(l, s, key, now)
    }
}

/// A key press of an ordinary key (not a modifier or direct trigger key).
/// A press of a key already held is the keyboard's auto-repeat: ignored.
pub open spec fn regular_down(l: LayoutV, s: SmState, key: Seq<char>, now: u64) -> Step {
    if tracks_held(key) && s.held.contains(key) {
        (s, Seq::empty())
    } else {
        regular_press(l, s, key, now)
    }
}

/// A fresh press of an ordinary key.
pub open spec fn regular_press(l: LayoutV, s: SmState, key: Seq<char>, now: u64) -> Step {
    let held = if tracks_held(key) {
        s.held.push(key)
    } else {
        s.held
    };
    let s1 = SmState { held, mods: interrupt_held(s.mods), ..s };
    if is_backspace_key(key) {
        backspace(s1)
    } else {
        let s2 = if s1.converting && !is_mozc_control(key) {
            SmState { tentative: Seq::empty(), pending: Seq::empty(), converting: false, ..s1 }
        } else {
            s1
        };
        if s2.direct_active || (l.meta.mode == LayoutMode::Kanchoku && l.direct_trigger is None) {
            direct_key(l, s2, key, now)
        } else if l.meta.mode == LayoutMode::Kanchoku {
            (s2, seq![ActionV::Passthrough(key)])
        } else {
            match modified_from(l, s2.mods, key, now, 0) {
                Some(out) => {
                    let s3 = SmState { mods: clear_oneshot(s2.mods), ..s2 };
                    if out == PASSTHROUGH_CELL@ {
                        (s3, seq![ActionV::Passthrough(key)])
                    } else {
                        (
                            SmState {
                                tentative: s3.tentative.push(
                                    TentV {
                                        kana: out,
                                        source_keys: seq![key],
                                        deadline: None,
                                        tail: Seq::empty(),
                                        confirmed: false,
                                    },
                                ),
                                ..s3
                            },
                            seq![ActionV::SendKana(out)],
                        )
                    }
                },
                None => match mutual_chord_from(l, s2.held, key, 0) {
                    Some(c) => fire_mutual(l, s2, c),
                    None => if hybrid_direct(l, s2, key, now) {
                        hybrid_direct_key(l, s2, key, now)
                    } else {
                        speculative(l, SmState { pending: s2.pending.push((key, now)), ..s2 }, key, now)
                    },
                },
            }
        }
    }
}

pub open spec fn key_down(l: LayoutV, s: SmState, key: Seq<char>, now: u64) -> Step {
    match modifier_index(l, key) {
        Some(i) => (
            SmState { mods: s.mods.update(i, press_mod(s.mods[i], l.modifiers[i].kind, now)), ..s },
            Seq::empty(),
        ),
        None => if is_direct_trigger_key(l, key) {
            direct_down(l, s)
        } else {
            regular_down(l, s, key, now)
        },
    }
}

/// Tap of a modifier key (released without having shifted anything).
pub open spec fn modifier_tap(l: LayoutV, s: SmState, def: ModifierDefV, key: Seq<char>) -> Step {
    match def.tap_action {
        TapAction::Passthrough => (s, seq![ActionV::Passthrough(key)]),
        TapAction::BaseKana => match lookup_base(l, key) {
            Some(raw) => {
                let r = emit(s.tentative, resolve(l, raw), seq![key], None);
                (SmState { tentative: r.0, ..s }, r.1)
            },
            None => (s, Seq::empty()),
        },
        TapAction::Output => match def.tap_output {
            Some(raw) => {
                let r = emit(s.tentative, resolve(l, raw), seq![key], None);
                (SmState { tentative: r.0, ..s }, r.1)
            },
            None => (s, Seq::empty()),
        },
        TapAction::NoAction => (s, Seq::empty()),
    }
}

/// Mark the tentative characters made from `key` confirmed.
pub open spec fn confirm_key(ts: Seq<TentV>, key: Seq<char>) -> Seq<TentV> {
    Seq::new(
        ts.len(),
        |i: int|
            if ts[i].source_keys.contains(key) {
                TentV { confirmed: true, ..ts[i] }
            } else {
                ts[i]
            },
    )
}

pub open spec fn key_up(l: LayoutV, s: SmState, key: Seq<char>) -> Step {
    let s0 = SmState { held: held_remove(s.held, key), tentative: confirm_key(s.tentative, key), ..s };
    match modifier_index(l, key) {
        Some(i) => {
            let def = l.modifiers[i];
            if def.kind == ModifierKind::Toggle {
                (s0, Seq::empty())
            } else {
                let m = s0.mods[i];
                let s1 = SmState {
                    mods: s0.mods.update(i, ModStateV { held: false, oneshot_pending: false, ..m }),
                    ..s0
                };
                if !m.interrupted && !m.oneshot_pending {
                    modifier_tap(l, s1, def, key)
                } else {
                    (s1, Seq::empty())
                }
            }
        },
        None => if is_direct_trigger_key(l, key) {
            direct_up(l, s0, key)
        } else {
            (s0, Seq::empty())
        },
    }
}

/// Model of an input event.
pub struct EventV {
    pub key: Seq<char>,
    pub down: bool,
    pub shift: bool,
    pub is_repeat: bool,
}

pub open spec fn process(l: LayoutV, s: SmState, ev: EventV, now: u64) -> Step {
    if ev.is_repeat {
        (s, Seq::empty())
    } else if ev.down {
        key_down(l, s, ev.key, now)
    } else {
        key_up(l, s, ev.key)
    }
}

pub open spec fn expired(t: TentV, now: u64) -> bool {
    t.deadline matches Some(d) && now >= d
}

/// A character whose rewrite window has closed is confirmed and loses its
/// deferred tail (which is sent now).
pub open spec fn tick_tent(t: TentV, now: u64) -> TentV {
    if expired(t, now) {
        TentV { deadline: None, tail: Seq::empty(), confirmed: true, ..t }
    } else {
        t
    }
}

/// Every character confirmed.
pub open spec fn mark_confirmed(ts: Seq<TentV>) -> Seq<TentV> {
    Seq::new(ts.len(), |i: int| TentV { confirmed: true, ..ts[i] })
}

/// The tentative characters that the deferred tails of the expired
/// characters of `ts` add to the preedit, in order: each tail's kana,
/// confirmed at once.
pub open spec fn tail_entries(ts: Seq<TentV>, now: u64) -> Seq<TentV>
    decreases ts.len(),
{
    if ts.len() == 0 {
        Seq::empty()
    } else {
        tail_entries(ts.drop_last(), now) + if expired(ts.last(), now) {
            mark_confirmed(emit(Seq::empty(), ts.last().tail, ts.last().source_keys, None).0)
        } else {
            Seq::empty()
        }
    }
}

pub open spec fn tick_actions(ts: Seq<TentV>, now: u64) -> Seq<ActionV>
    decreases ts.len(),
{
    if ts.len() == 0 {
        Seq::empty()
    } else {
        tick_actions(ts.drop_last(), now) + if expired(ts.last(), now) {
            actions_of(ts.last().tail)
        } else {
            Seq::empty()
        }
    }
}

/// Whether the chord window of pending entry `p` has closed at `now`: a key
/// of a timed chord waits its chord window, a key of a mutual chord the
/// mutual window, and a key that only starts a sequence waits for ever.
pub open spec fn pending_expired(l: LayoutV, p: (Seq<char>, u64), now: u64) -> bool {
    if has_timed_chord(l, p.0) {
        now >= p.1 + chord_window(l, p.0)
    } else if has_mutual_chord(l, p.0) {
        now >= p.1 + l.settings.mutual_window_ms
    } else {
        false
    }
}

/// The pending entries whose chord window is still open, in order.
pub open spec fn drop_expired(l: LayoutV, p: Seq<(Seq<char>, u64)>, now: u64) -> Seq<(Seq<char>, u64)>
    decreases p.len(),
{
    if p.len() == 0 {
        p
    } else {
        let rest = drop_expired(l, p.drop_last(), now);
        if pending_expired(l, p.last(), now) {
            rest
        } else {
            rest.push(p.last())
        }
    }
}

/// Chord timer: drop the pending keys whose chord window has closed; once
/// the earliest rewrite deadline has passed, confirm every expired
/// tentative character and send its deferred tail tokens, whose kana join
/// the tentative characters as confirmed ones.
pub open spec fn tick(l: LayoutV, s: SmState, now: u64) -> Step {
    let s0 = SmState { pending: drop_expired(l, s.pending, now), ..s };
    match s0.chord_deadline {
        Some(d) => if now >= d {
            let ts = Seq::new(s0.tentative.len(), |i: int| tick_tent(s0.tentative[i], now)) + tail_entries(
                s0.tentative,
                now,
            );
            (SmState { tentative: ts, chord_deadline: min_deadline(ts), ..s0 }, tick_actions(s0.tentative, now))
        } else {
            (s0, Seq::empty())
        },
        None => (s0, Seq::empty()),
    }
}

pub open spec fn reset_mod(m: ModStateV) -> ModStateV {
    ModStateV { held: false, interrupted: false, oneshot_pending: false, toggled: false, ..m }
}

pub open spec fn reset(s: SmState) -> Step {
    (
        SmState {
            tentative: Seq::empty(),
            pending: Seq::empty(),
            converting: false,
            chord_deadline: None,
            mods: Seq::new(s.mods.len(), |i: int| reset_mod(s.mods[i])),
            direct_active: false,
            direct_interrupted: false,
            held: Seq::empty(),
            preedit_kept: false,
        },
        backspaces(char_count(s.tentative)),
    )
}

pub open spec fn notify_conversion(s: SmState) -> SmState {
    if !s.converting {
        SmState { tentative: Seq::empty(), pending: Seq::empty(), held: Seq::empty(), converting: true, ..s }
    } else {
        SmState { converting: true, ..s }
    }
}

pub open spec fn tentative_text(ts: Seq<TentV>) -> Seq<char>
    decreases ts.len(),
{
    if ts.len() == 0 {
        Seq::empty()
    } else {
        tentative_text(ts.drop_last()) + ts.last().kana
    }
}

/// The preedit text after the converter has applied `acts` to `text`: kana
/// is appended, a backspace erases the last character, and the other
/// actions leave the composed text as it is.
pub open spec fn replay(text: Seq<char>, acts: Seq<ActionV>) -> Seq<char>
    decreases acts.len(),
{
    if acts.len() == 0 {
        text
    } else {
        let t = replay(text, acts.drop_last());
        match acts.last() {
            ActionV::SendKana(k) => t + k,
            ActionV::Backspace => if t.len() > 0 {
                t.drop_last()
            } else {
                t
            },
            _ => t,
        }
    }
}

} // verus!

verus! {

/// State of a freshly built machine: nothing pending, every modifier idle.
pub open spec fn initial_state(l: LayoutV) -> SmState {
    SmState {
        pending: Seq::empty(),
        tentative: Seq::empty(),
        mods: Seq::new(
            l.modifiers.len(),
            |i: int|
                ModStateV {
                    id: l.modifiers[i].id,
                    held: false,
                    interrupted: false,
                    pressed_at: 0,
                    oneshot_pending: false,
                    toggled: false,
                },
        ),
        direct_active: false,
        direct_interrupted: false,
        converting: false,
        chord_deadline: None,
        held: Seq::empty(),
        preedit_kept: false,
    }
}

/// A base-layer output can be emitted: it is the passthrough cell or
/// resolves to at least one token.
pub open spec fn base_output_ok(l: LayoutV, v: Seq<char>) -> bool {
    v == PASSTHROUGH_CELL@ || resolve(l, v).len() > 0
}

/// Every base-layer output can be emitted.
pub open spec fn layout_ok(l: LayoutV) -> bool {
    forall|k: Seq<char>| #[trigger] lookup_base(l, k) is Some ==> base_output_ok(l, lookup_base(l, k).unwrap())
}

} // verus!

verus! {

/// The machine's state fits its layout: one state per modifier, and every
/// base-layer output can be emitted.
pub open spec fn state_ok(l: LayoutV, s: SmState) -> bool {
    s.mods.len() == l.modifiers.len() && layout_ok(l)
}

} // verus!

verus! {

// ── Laws ─────────────────────────────────────────────────────────────────────

/// Emitting keeps the tentative characters already there.
proof fn lemma_emit_prefix(tent: Seq<TentV>, tokens: Seq<Seq<char>>, src: Seq<Seq<char>>, dl: Option<u64>)
    ensures
        emit(tent, tokens, src, dl).0.len() >= tent.len(),
        emit(tent, tokens, src, dl).0.take(tent.len() as int) == tent,
        emit(tent, tokens, src, dl).1 == actions_of(tokens),
        forall|j: int|
            tent.len() <= j < emit(tent, tokens, src, dl).0.len() ==> {
                let t = #[trigger] emit(tent, tokens, src, dl).0[j];
                &&& !(make_action(t.kana) is SendFunctionKey)
                &&& !(make_action(t.kana) is SendModifiedKey)
                &&& tokens.contains(t.kana)
                &&& t.source_keys == src
                &&& t.deadline == dl
            },
    decreases tokens.len(),
{
    if tokens.len() > 0 {
        let a = make_action(tokens[0]);
        let skip = a is SendFunctionKey || a is SendModifiedKey;
        let tent1 = if skip {
            tent
        } else {
            tent.push(TentV { kana: tokens[0], source_keys: src, deadline: dl, tail: Seq::empty(), confirmed: false })
        };
        let rest = tokens.drop_first();
        lemma_emit_prefix(tent1, rest, src, dl);
        let r = emit(tent1, rest, src, dl);
        assert(r.0.take(tent1.len() as int).take(tent.len() as int) =~= r.0.take(tent.len() as int));
        assert(tent1.take(tent.len() as int) =~= tent);
        assert(seq![a] + actions_of(rest) =~= actions_of(tokens));
        assert forall|j: int| tent.len() <= j < r.0.len() implies {
            let t = #[trigger] r.0[j];
            &&& !(make_action(t.kana) is SendFunctionKey)
            &&& !(make_action(t.kana) is SendModifiedKey)
            &&& tokens.contains(t.kana)
            &&& t.source_keys == src
            &&& t.deadline == dl
        } by {
            if j < tent1.len() {
                assert(r.0[j] == r.0.take(tent1.len() as int)[j]);
                assert(tokens[0] == tokens[0]);
                assert(tokens.contains(tokens[0]));
            } else {
                let k = choose|k: int| 0 <= k < rest.len() && rest[k] == r.0[j].kana;
                assert(tokens[k + 1] == rest[k]);
            }
        }
    } else {
        assert(tent.take(tent.len() as int) =~= tent);
        assert(actions_of(tokens) =~= Seq::<ActionV>::empty());
    }
}

/// Emitting a token sequence sends one action per token, keeps the tentative
/// characters already there, and adds tentative characters only for tokens
/// sent as kana: a function key or modifier combination never enters the
/// rewritable buffer.
pub proof fn law_emit_mirrors_preedit(tent: Seq<TentV>, tokens: Seq<Seq<char>>, src: Seq<Seq<char>>, dl: Option<u64>)
    ensures
        emit(tent, tokens, src, dl).1 == actions_of(tokens),
        emit(tent, tokens, src, dl).0.take(tent.len() as int) == tent,
        forall|j: int|
            tent.len() <= j < emit(tent, tokens, src, dl).0.len() ==> {
                let t = #[trigger] emit(tent, tokens, src, dl).0[j];
                &&& !(make_action(t.kana) is SendFunctionKey)
                &&& !(make_action(t.kana) is SendModifiedKey)
                &&& tokens.contains(t.kana)
            },
        replay(tentative_text(tent), emit(tent, tokens, src, dl).1) == tentative_text(emit(tent, tokens, src, dl).0),
{
    lemma_emit_prefix(tent, tokens, src, dl);
    lemma_emit_replay(tent, tokens, src, dl);
}

proof fn lemma_replay_append(x: Seq<char>, a: Seq<ActionV>, b: Seq<ActionV>)
    ensures
        replay(x, a + b) == replay(replay(x, a), b),
    decreases b.len(),
{
    if b.len() == 0 {
        assert(a + b =~= a);
    } else {
        lemma_replay_append(x, a, b.drop_last());
        assert((a + b).drop_last() =~= a + b.drop_last());
        assert((a + b).last() == b.last());
    }
}

proof fn lemma_replay_backspaces(x: Seq<char>, n: nat)
    requires
        n <= x.len(),
    ensures
        replay(x, backspaces(n)) == x.take(x.len() - n),
    decreases n,
{
    if n == 0 {
        assert(backspaces(0) =~= Seq::<ActionV>::empty());
        assert(x.take(x.len() as int) =~= x);
    } else {
        lemma_replay_backspaces(x, (n - 1) as nat);
        assert(backspaces(n).drop_last() =~= backspaces((n - 1) as nat));
        assert(x.take(x.len() - (n - 1)).drop_last() =~= x.take(x.len() - n));
    }
}

proof fn lemma_text_append(a: Seq<TentV>, b: Seq<TentV>)
    ensures
        tentative_text(a + b) == tentative_text(a) + tentative_text(b),
        char_count(a + b) == char_count(a) + char_count(b),
    decreases b.len(),
{
    if b.len() == 0 {
        assert(a + b =~= a);
        assert(tentative_text(a) + tentative_text(b) =~= tentative_text(a));
    } else {
        lemma_text_append(a, b.drop_last());
        assert((a + b).drop_last() =~= a + b.drop_last());
        assert(tentative_text(a) + tentative_text(b.drop_last()) + b.last().kana =~= tentative_text(a) + (
        tentative_text(b.drop_last()) + b.last().kana));
    }
}

proof fn lemma_text_len(ts: Seq<TentV>)
    ensures
        tentative_text(ts).len() == char_count(ts),
    decreases ts.len(),
{
    if ts.len() > 0 {
        lemma_text_len(ts.drop_last());
    }
}

proof fn lemma_emit_replay(tent: Seq<TentV>, tokens: Seq<Seq<char>>, src: Seq<Seq<char>>, dl: Option<u64>)
    ensures
        replay(tentative_text(tent), emit(tent, tokens, src, dl).1) == tentative_text(emit(tent, tokens, src, dl).0),
    decreases tokens.len(),
{
    let x = tentative_text(tent);
    if tokens.len() == 0 {
        assert(replay(x, Seq::<ActionV>::empty()) == x);
    } else {
        let a = make_action(tokens[0]);
        let skip = a is SendFunctionKey || a is SendModifiedKey;
        let tent1 = if skip {
            tent
        } else {
            tent.push(TentV { kana: tokens[0], source_keys: src, deadline: dl, tail: Seq::empty(), confirmed: false })
        };
        let rest = tokens.drop_first();
        lemma_emit_replay(tent1, rest, src, dl);
        let r = emit(tent1, rest, src, dl);
        lemma_replay_append(x, seq![a], r.1);
        assert(seq![a].drop_last() =~= Seq::<ActionV>::empty());
        assert(replay(x, Seq::<ActionV>::empty()) == x);
        assert(seq![a].last() == a);
        if !skip {
            assert(a == ActionV::SendKana(tokens[0]));
            assert(tent1.drop_last() =~= tent);
            assert(tent1.last().kana == tokens[0]);
            assert(tentative_text(tent1) == x + tokens[0]);
            assert(replay(x, seq![a]) == x + tokens[0]);
        } else {
            assert(replay(x, seq![a]) == x);
        }
        assert(replay(x, seq![a]) == tentative_text(tent1));
    }
}

proof fn lemma_rewrite_replay(s: SmState, n: nat, tokens: Seq<Seq<char>>, src: Seq<Seq<char>>)
    requires
        n <= s.tentative.len(),
    ensures
        replay(tentative_text(s.tentative), rewrite(s, n, tokens, src).1) == tentative_text(
            rewrite(s, n, tokens, src).0,
        ),
{
    let keep = s.tentative.len() - n;
    let kept = s.tentative.take(keep);
    let gone = s.tentative.skip(keep);
    assert(kept + gone =~= s.tentative);
    lemma_text_append(kept, gone);
    lemma_text_len(gone);
    let x = tentative_text(s.tentative);
    let bs = backspaces(char_count(gone));
    let e = emit(kept, tokens, src, None);
    lemma_replay_append(x, bs, e.1);
    lemma_replay_backspaces(x, char_count(gone));
    assert(x.take(x.len() - char_count(gone)) =~= tentative_text(kept));
    lemma_emit_replay(kept, tokens, src, None);
}

/// The preedit mirrors the tentative characters through a rule match: the
/// converter, given the match's backspaces and kana on the shown tentative
/// text, ends with exactly the new tentative text.
pub proof fn law_rewrite_mirrors_preedit(l: LayoutV, s: SmState, rule: RuleV)
    ensures
        replay(tentative_text(s.tentative), apply_rule(l, s, rule).1) == tentative_text(apply_rule(l, s, rule).0.tentative),
{
    lemma_rewrite_count_bound(s.tentative, rule.1, rule.2);
    lemma_rewrite_replay(s, rewrite_count(s.tentative, rule.1, rule.2), resolve(l, rule.0), rule.1);
}

/// The preedit mirrors the tentative characters through a mutual chord,
/// including the upgrade of a shorter chord's output.
pub proof fn law_mutual_mirrors_preedit(l: LayoutV, s: SmState, c: int)
    requires
        0 <= c < l.chords.len(),
    ensures
        replay(tentative_text(s.tentative), fire_mutual(l, s, c).1) == tentative_text(fire_mutual(l, s, c).0.tentative),
{
    let keys = l.chords[c].keys;
    lemma_rewrite_count_bound(s.tentative, keys, true);
    lemma_rewrite_replay(s, rewrite_count(s.tentative, keys, true), resolve(l, l.chords[c].output), keys);
}

/// Erasing the tentative characters (reset, flush) and BackSpace leave the
/// preedit equal to the tentative text: every character shown is erased by
/// one backspace.
pub proof fn law_erase_mirrors_preedit(s: SmState)
    ensures
        replay(tentative_text(s.tentative), reset(s).1) == tentative_text(reset(s).0.tentative),
        replay(tentative_text(s.tentative), flush(s).1) == tentative_text(flush(s).0.tentative),
        s.tentative.len() > 0 ==> replay(tentative_text(s.tentative), backspace(s).1) == tentative_text(
            backspace(s).0.tentative,
        ),
{
    let x = tentative_text(s.tentative);
    lemma_text_len(s.tentative);
    lemma_replay_backspaces(x, char_count(s.tentative));
    assert(x.take(0) =~= Seq::<char>::empty());
    assert(tentative_text(Seq::<TentV>::empty()) =~= Seq::<char>::empty());
    if s.tentative.len() > 0 {
        let t = s.tentative;
        assert(x == tentative_text(t.drop_last()) + t.last().kana);
        lemma_replay_backspaces(x, t.last().kana.len());
        assert(x.take(x.len() - t.last().kana.len()) =~= tentative_text(t.drop_last()));
    }
}

proof fn lemma_replay_no_backspace(x: Seq<char>, acts: Seq<ActionV>)
    requires
        forall|i: int| 0 <= i < acts.len() ==> !(#[trigger] acts[i] is Backspace),
    ensures
        replay(x, acts) == x + replay(Seq::empty(), acts),
    decreases acts.len(),
{
    if acts.len() == 0 {
        assert(x + Seq::<char>::empty() =~= x);
    } else {
        let a = acts.drop_last();
        assert forall|i: int| 0 <= i < a.len() implies !(#[trigger] a[i] is Backspace) by {
            assert(a[i] == acts[i]);
        }
        lemma_replay_no_backspace(x, a);
        assert(!(acts[acts.len() - 1] is Backspace));
        let y = replay(Seq::<char>::empty(), a);
        match acts.last() {
            ActionV::SendKana(k) => {
                assert(x + y + k =~= x + (y + k));
            },
            _ => {},
        }
    }
}

proof fn lemma_mark_confirmed_text(ts: Seq<TentV>)
    ensures
        tentative_text(mark_confirmed(ts)) == tentative_text(ts),
    decreases ts.len(),
{
    if ts.len() > 0 {
        assert(mark_confirmed(ts).drop_last() =~= mark_confirmed(ts.drop_last()));
        lemma_mark_confirmed_text(ts.drop_last());
    }
}

proof fn lemma_tick_text(ts: Seq<TentV>, now: u64)
    ensures
        tentative_text(Seq::new(ts.len(), |i: int| tick_tent(ts[i], now))) == tentative_text(ts),
    decreases ts.len(),
{
    if ts.len() > 0 {
        let u = ts.drop_last();
        lemma_tick_text(u, now);
        assert(Seq::new(ts.len(), |i: int| tick_tent(ts[i], now)).drop_last() =~= Seq::new(
            u.len(),
            |i: int| tick_tent(u[i], now),
        ));
    }
}

proof fn lemma_tick_tails(x: Seq<char>, ts: Seq<TentV>, now: u64)
    ensures
        replay(x, tick_actions(ts, now)) == x + tentative_text(tail_entries(ts, now)),
    decreases ts.len(),
{
    if ts.len() == 0 {
        assert(x + Seq::<char>::empty() =~= x);
    } else {
        let u = ts.drop_last();
        lemma_tick_tails(x, u, now);
        let t = ts.last();
        let y = x + tentative_text(tail_entries(u, now));
        if expired(t, now) {
            let acts = actions_of(t.tail);
            let e = emit(Seq::<TentV>::empty(), t.tail, t.source_keys, None);
            lemma_replay_append(x, tick_actions(u, now), acts);
            lemma_emit_prefix(Seq::<TentV>::empty(), t.tail, t.source_keys, None);
            lemma_emit_replay(Seq::<TentV>::empty(), t.tail, t.source_keys, None);
            assert(tentative_text(Seq::<TentV>::empty()) =~= Seq::<char>::empty());
            lemma_replay_no_backspace(y, acts);
            lemma_mark_confirmed_text(e.0);
            lemma_text_append(tail_entries(u, now), mark_confirmed(e.0));
            assert(y + tentative_text(e.0) =~= x + (tentative_text(tail_entries(u, now)) + tentative_text(
                mark_confirmed(e.0),
            )));
        } else {
            assert(tick_actions(u, now) + Seq::<ActionV>::empty() =~= tick_actions(u, now));
            assert(tail_entries(u, now) + Seq::<TentV>::empty() =~= tail_entries(u, now));
        }
    }
}

/// The preedit mirrors the tentative characters through the chord timer:
/// the tail tokens it sends leave the converter holding the tentative text
/// before, followed by the tail kana, which are now tentative characters.
pub proof fn law_tick_mirrors_preedit(l: LayoutV, s: SmState, now: u64)
    ensures
        replay(tentative_text(s.tentative), tick(l, s, now).1) == tentative_text(tick(l, s, now).0.tentative),
{
    let x = tentative_text(s.tentative);
    match s.chord_deadline {
        Some(d) => if now >= d {
            let heads = Seq::new(s.tentative.len(), |i: int| tick_tent(s.tentative[i], now));
            lemma_tick_text(s.tentative, now);
            lemma_text_append(heads, tail_entries(s.tentative, now));
            lemma_tick_tails(x, s.tentative, now);
        } else {
        },
        None => {},
    }
}

/// A key-down event.
pub open spec fn key_press(key: Seq<char>) -> EventV {
    EventV { key, down: true, shift: false, is_repeat: false }
}

/// Auto-repeated key events are ignored: no action, no change of state.
pub proof fn law_repeat_ignored(l: LayoutV, s: SmState, ev: EventV, now: u64)
    requires
        ev.is_repeat,
    ensures
        process(l, s, ev, now) == (s, Seq::<ActionV>::empty()),
{
}

/// A press of an ordinary key that is already held is the keyboard's
/// auto-repeat: nothing happens. In particular a chord that has fired does
/// not fire again until one of its keys is released.
pub proof fn law_held_key_repeat_ignored(l: LayoutV, s: SmState, key: Seq<char>, now: u64)
    requires
        modifier_index(l, key) is None,
        !is_direct_trigger_key(l, key),
        tracks_held(key),
        s.held.contains(key),
    ensures
        process(l, s, key_press(key), now) == (s, Seq::<ActionV>::empty()),
{
}

/// BackSpace (a backspace key that is neither a modifier nor a direct
/// trigger) pops exactly one tentative character and sends one backspace
/// per character it shows; with only a partial sequence pending it drops
/// the sequence silently; with nothing buffered it is forwarded.
pub proof fn law_backspace(l: LayoutV, s: SmState, key: Seq<char>, now: u64)
    requires
        is_backspace_key(key),
        modifier_index(l, key) is None,
        !is_direct_trigger_key(l, key),
    ensures
        s.tentative.len() > 0 ==> {
            &&& process(l, s, key_press(key), now).1 == backspaces(s.tentative.last().kana.len())
            &&& process(l, s, key_press(key), now).0.tentative == s.tentative.drop_last()
            &&& process(l, s, key_press(key), now).0.pending.len() == 0
        },
        s.tentative.len() == 0 && s.pending.len() > 0 ==> {
            &&& process(l, s, key_press(key), now).1.len() == 0
            &&& process(l, s, key_press(key), now).0.tentative == s.tentative
            &&& process(l, s, key_press(key), now).0.pending.len() == 0
        },
        s.tentative.len() == 0 && s.pending.len() == 0 ==> {
            &&& process(l, s, key_press(key), now).1 == seq![ActionV::Backspace]
            &&& process(l, s, key_press(key), now).0.tentative == s.tentative
        },
{
    assert(backspaces(1) =~= seq![ActionV::Backspace]);
}

/// What a BS-rewrite keeps and what it sends: the characters before the
/// rewritten ones stay, and the actions are one backspace per rewritten
/// preedit character followed by the new tokens' actions.
proof fn lemma_rewrite(s: SmState, n: nat, tokens: Seq<Seq<char>>, src: Seq<Seq<char>>)
    requires
        n <= s.tentative.len(),
    ensures
        ({
            let keep = s.tentative.len() - n;
            let r = rewrite(s, n, tokens, src);
            let bs = char_count(s.tentative) - char_count(s.tentative.take(keep));
            &&& bs >= 0
            &&& r.1.take(bs) == backspaces(bs as nat)
            &&& r.1.skip(bs) == actions_of(tokens)
            &&& r.0.take(keep) == s.tentative.take(keep)
        }),
{
    let keep = s.tentative.len() - n;
    lemma_text_append(s.tentative.take(keep), s.tentative.skip(keep));
    assert(s.tentative.take(keep) + s.tentative.skip(keep) =~= s.tentative);
    lemma_emit_prefix(s.tentative.take(keep), tokens, src, None);
    let r = rewrite(s, n, tokens, src);
    let bs = char_count(s.tentative.skip(keep));
    assert(r.1.take(bs as int) =~= backspaces(bs));
    assert(r.1.skip(bs as int) =~= actions_of(tokens));
}

/// A rule match erases exactly what it rewrites: its output starts with one
/// backspace per preedit character of the rewritten tentative characters,
/// the characters before those stay, and nothing is left pending.
pub proof fn law_rewrite_balance(l: LayoutV, s: SmState, rule: RuleV)
    ensures
        ({
            let n = rewrite_count(s.tentative, rule.1, rule.2);
            let keep = s.tentative.len() - n;
            let bs = char_count(s.tentative) - char_count(s.tentative.take(keep));
            let r = apply_rule(l, s, rule);
            &&& n <= s.tentative.len()
            &&& bs >= 0
            &&& r.1.take(bs) == backspaces(bs as nat)
            &&& r.1.skip(bs) == actions_of(resolve(l, rule.0))
            &&& r.0.tentative.take(keep) == s.tentative.take(keep)
            &&& r.0.pending.len() == 0
        }),
{
    lemma_rewrite_count_bound(s.tentative, rule.1, rule.2);
    lemma_rewrite(s, rewrite_count(s.tentative, rule.1, rule.2), resolve(l, rule.0), rule.1);
}

/// A mutual chord erases exactly what it replaces: its output starts with
/// one backspace per preedit character of the trailing unconfirmed
/// tentative characters made from its keys alone, the characters before
/// those stay, and its keys leave the pending keys. So the output of a
/// shorter chord whose keys are still held is upgraded by a longer one.
pub proof fn law_mutual_rewrite_balance(l: LayoutV, s: SmState, c: int)
    requires
        0 <= c < l.chords.len(),
    ensures
        ({
            let n = rewrite_count(s.tentative, l.chords[c].keys, true);
            let keep = s.tentative.len() - n;
            let bs = char_count(s.tentative) - char_count(s.tentative.take(keep));
            let r = fire_mutual(l, s, c);
            &&& n <= s.tentative.len()
            &&& bs >= 0
            &&& r.1.take(bs) == backspaces(bs as nat)
            &&& r.1.skip(bs) == actions_of(resolve(l, l.chords[c].output))
            &&& r.0.tentative.take(keep) == s.tentative.take(keep)
            &&& forall|j: int| 0 <= j < r.0.pending.len() ==> !l.chords[c].keys.contains(#[trigger] r.0.pending[j].0)
        }),
{
    let keys = l.chords[c].keys;
    lemma_rewrite_count_bound(s.tentative, keys, true);
    lemma_rewrite(s, rewrite_count(s.tentative, keys, true), resolve(l, l.chords[c].output), keys);
    lemma_pending_without(s.pending, keys);
}

/// A chord rewrites only characters made from its own keys that are not
/// confirmed: a character whose key was released before the chord is never
/// erased by it.
pub proof fn law_chord_spares_confirmed(ts: Seq<TentV>, keys: Seq<Seq<char>>)
    ensures
        forall|j: int|
            ts.len() - rewrite_count(ts, keys, true) <= j < ts.len() ==> !(#[trigger] ts[j]).confirmed && within(
                ts[j],
                keys,
            ),
    decreases ts.len(),
{
    if ts.len() > 0 && rewritable(ts.last(), keys, true) {
        law_chord_spares_confirmed(ts.drop_last(), keys);
        lemma_rewrite_count_bound(ts.drop_last(), keys, true);
        assert forall|j: int|
            ts.len() - rewrite_count(ts, keys, true) <= j < ts.len() implies !(#[trigger] ts[j]).confirmed && within(
                ts[j],
                keys,
            ) by {
            if j < ts.len() - 1 {
                assert(ts[j] == ts.drop_last()[j]);
            }
        }
    }
}

proof fn lemma_pending_without(p: Seq<(Seq<char>, u64)>, ks: Seq<Seq<char>>)
    ensures
        forall|j: int| 0 <= j < pending_without(p, ks).len() ==> !ks.contains(#[trigger] pending_without(p, ks)[j].0),
    decreases p.len(),
{
    if p.len() > 0 {
        lemma_pending_without(p.drop_last(), ks);
        let rest = pending_without(p.drop_last(), ks);
        if !ks.contains(p.last().0) {
            assert forall|j: int| 0 <= j < rest.push(p.last()).len() implies !ks.contains(
                #[trigger] rest.push(p.last())[j].0,
            ) by {
                if j < rest.len() {
                    assert(rest.push(p.last())[j] == rest[j]);
                }
            }
        }
    }
}

proof fn lemma_rewrite_count_bound(ts: Seq<TentV>, keys: Seq<Seq<char>>, chord: bool)
    ensures
        rewrite_count(ts, keys, chord) <= ts.len(),
    decreases ts.len(),
{
    if ts.len() > 0 {
        lemma_rewrite_count_bound(ts.drop_last(), keys, chord);
    }
}

/// In direct (kanchoku) input a key that completes no rule is silent: no
/// action, and the tentative characters are untouched.
pub proof fn law_direct_partial_silent(l: LayoutV, s: SmState, key: Seq<char>, now: u64)
    requires
        s.direct_active,
        !s.converting,
        modifier_index(l, key) is None,
        !is_direct_trigger_key(l, key),
        !is_backspace_key(key),
        direct_rule_from(l.directs, pending_keys(s).push(key), 0) is None,
    ensures
        process(l, s, key_press(key), now).1.len() == 0,
        process(l, s, key_press(key), now).0.tentative == s.tentative,
{
    if !(tracks_held(key) && s.held.contains(key)) {
        let held = if tracks_held(key) {
            s.held.push(key)
        } else {
            s.held
        };
        let s1 = SmState { held, mods: interrupt_held(s.mods), ..s };
        let s2 = SmState { direct_interrupted: true, pending: s1.pending.push((key, now)), ..s1 };
        assert(pending_keys(s2) =~= pending_keys(s).push(key));
    }
}

proof fn lemma_drop_expired(l: LayoutV, p: Seq<(Seq<char>, u64)>, now: u64)
    ensures
        (forall|j: int| 0 <= j < p.len() ==> !pending_expired(l, #[trigger] p[j], now)) ==> drop_expired(l, p, now)
            == p,
        forall|j: int|
            0 <= j < drop_expired(l, p, now).len() ==> !pending_expired(l, #[trigger] drop_expired(l, p, now)[j], now)
                && p.contains(drop_expired(l, p, now)[j]),
        forall|j: int| 0 <= j < p.len() && !pending_expired(l, #[trigger] p[j], now) ==> drop_expired(l, p, now).contains(p[j]),
    decreases p.len(),
{
    if p.len() > 0 {
        let q = p.drop_last();
        lemma_drop_expired(l, q, now);
        let rest = drop_expired(l, q, now);
        assert forall|j: int| 0 <= j < q.len() implies #[trigger] q[j] == p[j] by {}
        if (forall|j: int| 0 <= j < p.len() ==> !pending_expired(l, #[trigger] p[j], now)) {
            assert(forall|j: int| 0 <= j < q.len() ==> !pending_expired(l, #[trigger] q[j], now));
            assert(!pending_expired(l, p[p.len() - 1], now));
            assert(rest.push(p.last()) =~= p);
        }
        assert forall|j: int| 0 <= j < drop_expired(l, p, now).len() implies !pending_expired(
            l,
            #[trigger] drop_expired(l, p, now)[j],
            now,
        ) && p.contains(drop_expired(l, p, now)[j]) by {
            if j < rest.len() {
                assert(drop_expired(l, p, now)[j] == rest[j]);
                let k = choose|k: int| 0 <= k < q.len() && q[k] == rest[j];
                assert(p[k] == q[k]);
            } else {
                assert(drop_expired(l, p, now)[j] == p.last());
                assert(p[p.len() - 1] == p.last());
            }
        }
        assert forall|j: int| 0 <= j < p.len() && !pending_expired(l, #[trigger] p[j], now) implies drop_expired(
            l,
            p,
            now,
        ).contains(p[j]) by {
            if j < q.len() {
                assert(q[j] == p[j]);
                let k = choose|k: int| 0 <= k < rest.len() && rest[k] == q[j];
                if !pending_expired(l, p.last(), now) {
                    assert(rest.push(p.last())[k] == rest[k]);
                }
            } else {
                assert(p[j] == p.last());
                assert(rest.push(p.last())[rest.len() as int] == p.last());
            }
        }
    }
}

/// While something is being composed (tentative characters, a conversion,
/// or kana kept in the preedit), a press of a key that no layer, chord or
/// rule assigns goes to Mozc as that key when it is one of Mozc's control
/// keys: space, Return, Tab, Left, Right, Up, Down, Home, End, Prior, Next,
/// Delete, Escape, Henkan, Muhenkan, Hiragana_Katakana. Nothing is
/// committed and the tentative characters stay as they are.
pub proof fn law_control_key_goes_to_mozc(l: LayoutV, s: SmState, key: Seq<char>, now: u64)
    requires
        key == "space"@
            || key == "Return"@
            || key == "Tab"@
            || key == "Left"@
            || key == "Right"@
            || key == "Up"@
            || key == "Down"@
            || key == "Home"@
            || key == "End"@
            || key == "Prior"@
            || key == "Next"@
            || key == "Delete"@
            || key == "Escape"@
            || key == "Henkan"@
            || key == "Muhenkan"@
            || key == "Hiragana_Katakana"@,
        l.meta.mode == LayoutMode::Kana,
        !s.direct_active,
        s.tentative.len() > 0 || s.converting || s.preedit_kept,
        modifier_index(l, key) is None,
        !is_direct_trigger_key(l, key),
        lookup_base(l, key) is None,
        !has_timed_chord(l, key),
        !has_mutual_chord(l, key),
        modified_from(l, interrupt_held(s.mods), key, now, 0) is None,
        mutual_chord_from(l, s.held, key, 0) is None,
        try_resolve_pending(l, SmState { pending: s.pending.push((key, now)), ..s }) is None,
        try_resolve_postfix(l, s, key) is None,
    ensures
        process(l, s, key_press(key), now).1 == seq![ActionV::SendFunctionKey(key)],
        process(l, s, key_press(key), now).0.tentative == s.tentative,
{
    reveal_strlit("space");
    reveal_strlit("Return");
    reveal_strlit("Tab");
    reveal_strlit("Left");
    reveal_strlit("Right");
    reveal_strlit("Up");
    reveal_strlit("Down");
    reveal_strlit("Home");
    reveal_strlit("End");
    reveal_strlit("Prior");
    reveal_strlit("Next");
    reveal_strlit("Delete");
    reveal_strlit("Escape");
    reveal_strlit("Henkan");
    reveal_strlit("Muhenkan");
    reveal_strlit("Hiragana_Katakana");
    reveal_strlit("bs");
    reveal_strlit("BackSpace");
    reveal_strlit("backspace");
    if key == "space"@ {
        assert(key.len() == 5 && key[0] == 's' && key[1] == 'p');
    }
    if key == "Return"@ {
        assert(key.len() == 6 && key[0] == 'R' && key[1] == 'e');
    }
    if key == "Tab"@ {
        assert(key.len() == 3 && key[0] == 'T' && key[1] == 'a');
    }
    if key == "Left"@ {
        assert(key.len() == 4 && key[0] == 'L' && key[1] == 'e');
    }
    if key == "Right"@ {
        assert(key.len() == 5 && key[0] == 'R' && key[1] == 'i');
    }
    if key == "Up"@ {
        assert(key.len() == 2 && key[0] == 'U' && key[1] == 'p');
    }
    if key == "Down"@ {
        assert(key.len() == 4 && key[0] == 'D' && key[1] == 'o');
    }
    if key == "Home"@ {
        assert(key.len() == 4 && key[0] == 'H' && key[1] == 'o');
    }
    if key == "End"@ {
        assert(key.len() == 3 && key[0] == 'E' && key[1] == 'n');
    }
    if key == "Prior"@ {
        assert(key.len() == 5 && key[0] == 'P' && key[1] == 'r');
    }
    if key == "Next"@ {
        assert(key.len() == 4 && key[0] == 'N' && key[1] == 'e');
    }
    if key == "Delete"@ {
        assert(key.len() == 6 && key[0] == 'D' && key[1] == 'e');
    }
    if key == "Escape"@ {
        assert(key.len() == 6 && key[0] == 'E' && key[1] == 's');
    }
    if key == "Henkan"@ {
        assert(key.len() == 6 && key[0] == 'H' && key[1] == 'e');
    }
    if key == "Muhenkan"@ {
        assert(key.len() == 8 && key[0] == 'M' && key[1] == 'u');
    }
    if key == "Hiragana_Katakana"@ {
        assert(key.len() == 17 && key[0] == 'H' && key[1] == 'i');
    }
    assert(!is_backspace_key(key));
    assert(is_mozc_control(key));
    let s1 = SmState { mods: interrupt_held(s.mods), ..s };
    let s3 = SmState { pending: s1.pending.push((key, now)), ..s1 };
    assert(pending_keys(s3) =~= pending_keys(SmState { pending: s.pending.push((key, now)), ..s }));
    assert(s3.pending.drop_last() =~= s.pending);
}

/// The first postfix layer with trigger `t` that maps `k` gives the match
/// for `t` after a character whose first source key is `k`.
proof fn lemma_postfix_first(l: LayoutV, t: Seq<char>, prev: Seq<Seq<char>>, i: int, j: int)
    requires
        0 <= j <= i < l.postfix_layers.len(),
        prev.len() > 0,
        l.postfix_layers[i].0 == t,
        assoc_get(l.postfix_layers[i].1, prev[0]) is Some,
        forall|m: int|
            0 <= m < i ==> (#[trigger] l.postfix_layers[m]).0 != t || assoc_get(l.postfix_layers[m].1, prev[0]) is None,
    ensures
        postfix_match_from(l, t, prev, j) == Some::<RuleV>(
            (assoc_get(l.postfix_layers[i].1, prev[0]).unwrap(), prev.push(t), false),
        ),
    decreases i - j,
{
    if j < i {
        lemma_postfix_first(l, t, prev, i, j + 1);
    }
}

/// A postfix layer rewrites the character before its trigger: when the last
/// tentative character came from key `k` (its first source key) and the
/// first postfix layer with trigger `t` whose grid has `k` maps `k` to the
/// kana `v`, a fresh press of `t` erases that character (one backspace per
/// character it shows) and sends `v`, which takes its place, made from the
/// keys of the old character and `t`.
pub proof fn law_postfix_rewrites_previous(
    l: LayoutV,
    s: SmState,
    t: Seq<char>,
    now: u64,
    i: int,
    v: Seq<char>,
)
    requires
        l.meta.mode == LayoutMode::Kana,
        !s.direct_active,
        !s.converting,
        s.tentative.len() > 0,
        s.tentative.last().source_keys.len() > 0,
        0 <= i < l.postfix_layers.len(),
        l.postfix_layers[i].0 == t,
        assoc_get(l.postfix_layers[i].1, s.tentative.last().source_keys[0]) == Some(v),
        forall|m: int|
            0 <= m < i ==> (#[trigger] l.postfix_layers[m]).0 != t || assoc_get(
                l.postfix_layers[m].1,
                s.tentative.last().source_keys[0],
            ) is None,
        v.len() > 0,
        v[0] != '!',
        !is_mod_prefix(v),
        assoc_get(l.aliases, v) is None,
        !v.contains(' '),
        modifier_index(l, t) is None,
        !is_direct_trigger_key(l, t),
        !is_backspace_key(t),
        !is_mozc_control(t),
        !s.held.contains(t),
        modified_from(l, interrupt_held(s.mods), t, now, 0) is None,
        mutual_chord_from(l, s.held.push(t), t, 0) is None,
        try_resolve_pending(l, SmState { pending: s.pending.push((t, now)), ..s }) is None,
        s.tentative.len() == 1 || !within(
            s.tentative[s.tentative.len() - 2],
            s.tentative.last().source_keys.push(t),
        ),
    ensures
        process(l, s, key_press(t), now).1 == backspaces(s.tentative.last().kana.len()) + seq![
            ActionV::SendKana(v),
        ],
        process(l, s, key_press(t), now).0.tentative == s.tentative.drop_last().push(
            TentV {
                kana: v,
                source_keys: s.tentative.last().source_keys.push(t),
                deadline: None,
                tail: Seq::empty(),
                confirmed: false,
            },
        ),
{
    let tc = s.tentative.last();
    let prev = tc.source_keys;
    let keys = prev.push(t);
    lemma_postfix_first(l, t, prev, i, 0);
    let s1 = SmState { held: s.held.push(t), mods: interrupt_held(s.mods), ..s };
    let s3 = SmState { pending: s1.pending.push((t, now)), ..s1 };
    assert(pending_keys(s3) =~= pending_keys(SmState { pending: s.pending.push((t, now)), ..s }));
    assert(try_resolve_pending(l, s3) is None);
    assert(try_resolve_postfix(l, s3, t) == Some::<RuleV>((v, keys, false)));
    // Only the last character is rewritten.
    assert forall|j: int| 0 <= j < tc.source_keys.len() implies keys.contains(#[trigger] tc.source_keys[j]) by {
        assert(keys[j] == tc.source_keys[j]);
    }
    assert(rewritable(tc, keys, false));
    let ts = s.tentative;
    assert(ts.drop_last().len() == 0 || ts.drop_last().last() == ts[ts.len() - 2]);
    assert(rewrite_count(ts.drop_last(), keys, false) == 0);
    assert(rewrite_count(ts, keys, false) == 1);
    // The rule's output is the one kana `v`.
    assert(resolve(l, v) == seq![v]);
    assert(mods_acc(v, 0) == 0);
    assert(make_action(v) == ActionV::SendKana(v));
    let keep = ts.len() - 1;
    assert(ts.take(keep) =~= ts.drop_last());
    assert(ts.skip(keep) =~= seq![tc]);
    let one = seq![tc];
    assert(one.drop_last() =~= Seq::<TentV>::empty());
    assert(one.last() == tc);
    assert(char_count(Seq::<TentV>::empty()) == 0);
    assert(char_count(one) == tc.kana.len());
    let nt = TentV { kana: v, source_keys: keys, deadline: None, tail: Seq::empty(), confirmed: false };
    assert(seq![v].drop_first() =~= Seq::<Seq<char>>::empty());
    assert(emit(ts.drop_last().push(nt), Seq::<Seq<char>>::empty(), keys, None) == (
        ts.drop_last().push(nt),
        Seq::<ActionV>::empty(),
    ));
    assert(seq![ActionV::SendKana(v)] + Seq::<ActionV>::empty() =~= seq![ActionV::SendKana(v)]);
}

/// While tentative characters or kept kana are being composed (and Mozc is
/// not converting), a fresh press of a key that no layer, chord or rule
/// assigns and that is neither a backspace key nor one of Mozc's control keys
/// (space, Return, Tab, Left, Right, Up, Down, Home, End, Prior, Next,
/// Delete, Escape, Henkan, Muhenkan, Hiragana_Katakana) commits the
/// composition and passes the key on; nothing tentative remains.
pub proof fn law_other_key_submits(l: LayoutV, s: SmState, key: Seq<char>, now: u64)
    requires
        key != "space"@
            && key != "Return"@
            && key != "Tab"@
            && key != "Left"@
            && key != "Right"@
            && key != "Up"@
            && key != "Down"@
            && key != "Home"@
            && key != "End"@
            && key != "Prior"@
            && key != "Next"@
            && key != "Delete"@
            && key != "Escape"@
            && key != "Henkan"@
            && key != "Muhenkan"@
            && key != "Hiragana_Katakana"@
            && key != "bs"@
            && key != "BackSpace"@
            && key != "backspace"@,
        l.meta.mode == LayoutMode::Kana,
        !s.direct_active,
        !s.converting,
        s.tentative.len() > 0 || s.preedit_kept,
        modifier_index(l, key) is None,
        !is_direct_trigger_key(l, key),
        !s.held.contains(key),
        lookup_base(l, key) is None,
        !has_timed_chord(l, key),
        !has_mutual_chord(l, key),
        modified_from(l, interrupt_held(s.mods), key, now, 0) is None,
        mutual_chord_from(l, s.held.push(key), key, 0) is None,
        try_resolve_pending(l, SmState { pending: s.pending.push((key, now)), ..s }) is None,
        try_resolve_postfix(l, s, key) is None,
    ensures
        process(l, s, key_press(key), now).1 == seq![ActionV::SubmitThenPassthrough(key)],
        process(l, s, key_press(key), now).0.tentative.len() == 0,
{
    let s1 = SmState { held: s.held.push(key), mods: interrupt_held(s.mods), ..s };
    let s3 = SmState { pending: s1.pending.push((key, now)), ..s1 };
    assert(pending_keys(s3) =~= pending_keys(SmState { pending: s.pending.push((key, now)), ..s }));
}

/// In a hybrid layout without a direct trigger, a fresh key that neither a
/// modifier layer nor a mutual chord takes, and with which the pending keys
/// may still complete a `[[direct]]` sequence but complete none, waits
/// silently, whether or not kana rules could also use it.
pub proof fn law_hybrid_direct_candidate_waits(l: LayoutV, s: SmState, key: Seq<char>, now: u64)
    requires
        l.meta.mode == LayoutMode::Hybrid,
        l.direct_trigger is None,
        !s.direct_active,
        !s.converting,
        modifier_index(l, key) is None,
        !is_direct_trigger_key(l, key),
        tracks_held(key),
        !s.held.contains(key),
        modified_from(l, interrupt_held(s.mods), key, now, 0) is None,
        mutual_chord_from(l, s.held.push(key), key, 0) is None,
        direct_rule_from(l.directs, pending_keys(s).push(key), 0) is None,
        has_direct_continuation(l.directs, pending_keys(s).push(key)),
    ensures
        process(l, s, key_press(key), now).1.len() == 0,
        process(l, s, key_press(key), now).0.tentative == s.tentative,
        pending_keys(process(l, s, key_press(key), now).0) == pending_keys(s).push(key),
{
    let s1 = SmState { held: s.held.push(key), mods: interrupt_held(s.mods), ..s };
    let s2 = SmState { pending: s1.pending.push((key, now)), ..s1 };
    assert(pending_keys(s2) =~= pending_keys(s).push(key));
    let s3 = SmState { direct_interrupted: true, pending: s1.pending.push((key, now)), ..s1 };
    assert(pending_keys(s3) =~= pending_keys(s).push(key));
}

/// In a hybrid layout without a direct trigger, a fresh key with which the
/// pending keys complete a `[[direct]]` sequence that no kana rule completes
/// commits the sequence's output; kana typed before it stay in the preedit
/// (none is erased) and are submitted first.
pub proof fn law_hybrid_direct_completes(l: LayoutV, s: SmState, key: Seq<char>, now: u64, i: int)
    requires
        l.meta.mode == LayoutMode::Hybrid,
        l.direct_trigger is None,
        !s.direct_active,
        !s.converting,
        modifier_index(l, key) is None,
        !is_direct_trigger_key(l, key),
        tracks_held(key),
        !s.held.contains(key),
        modified_from(l, interrupt_held(s.mods), key, now, 0) is None,
        mutual_chord_from(l, s.held.push(key), key, 0) is None,
        direct_rule_from(l.directs, pending_keys(s).push(key), 0) == Some(i),
        try_resolve_pending(l, SmState { pending: s.pending.push((key, now)), ..s }) is None,
    ensures
        process(l, s, key_press(key), now).1 == submit_if(s.tentative.len() > 0 || s.preedit_kept)
            + commit_actions(resolve(l, l.directs[i].output)),
        process(l, s, key_press(key), now).0.tentative.len() == 0,
        !process(l, s, key_press(key), now).0.preedit_kept,
        process(l, s, key_press(key), now).0.pending.len() == 0,
{
    let s1 = SmState { held: s.held.push(key), mods: interrupt_held(s.mods), ..s };
    let s2 = SmState { pending: s1.pending.push((key, now)), ..s1 };
    let s0 = SmState { pending: s.pending.push((key, now)), ..s };
    assert(pending_keys(s2) =~= pending_keys(s).push(key));
    assert(pending_keys(s2) == pending_keys(s0));
    assert(try_resolve_pending(l, s2) == try_resolve_pending(l, s0));
    let c = SmState {
        tentative: Seq::empty(),
        chord_deadline: None,
        preedit_kept: s1.preedit_kept || s1.tentative.len() > 0,
        ..s1
    };
    let c2 = SmState { direct_interrupted: true, pending: c.pending.push((key, now)), ..c };
    assert(pending_keys(c2) =~= pending_keys(s).push(key));
    assert(backspaces(0) =~= Seq::<ActionV>::empty());
    assert(Seq::<ActionV>::empty() + submit_if(s.tentative.len() > 0 || s.preedit_kept) =~= submit_if(
        s.tentative.len() > 0 || s.preedit_kept,
    ));
}

/// In a hybrid layout without a direct trigger, when the pending keys and a
/// fresh key complete both a kana rule and a `[[direct]]` sequence, the kana
/// rule wins: the key is read exactly as in a kana layout.
pub proof fn law_hybrid_kana_wins(l: LayoutV, s: SmState, key: Seq<char>, now: u64)
    requires
        l.meta.mode == LayoutMode::Hybrid,
        l.direct_trigger is None,
        !s.direct_active,
        !s.converting,
        modifier_index(l, key) is None,
        !is_direct_trigger_key(l, key),
        tracks_held(key),
        !s.held.contains(key),
        modified_from(l, interrupt_held(s.mods), key, now, 0) is None,
        mutual_chord_from(l, s.held.push(key), key, 0) is None,
        direct_rule_from(l.directs, pending_keys(s).push(key), 0) is Some,
        try_resolve_pending(l, SmState { pending: s.pending.push((key, now)), ..s }) is Some,
    ensures
        process(l, s, key_press(key), now) == speculative(
            l,
            SmState { held: s.held.push(key), mods: interrupt_held(s.mods), pending: s.pending.push((key, now)), ..s },
            key,
            now,
        ),
{
    let s1 = SmState { held: s.held.push(key), mods: interrupt_held(s.mods), ..s };
    let s2 = SmState { pending: s1.pending.push((key, now)), ..s1 };
    let s0 = SmState { pending: s.pending.push((key, now)), ..s };
    assert(pending_keys(s2) =~= pending_keys(s).push(key));
    assert(pending_keys(s2) == pending_keys(s0));
    assert(try_resolve_pending(l, s2) == try_resolve_pending(l, s0));
}

/// The chord timer drops exactly the pending keys whose chord window has
/// closed, keeping the others in order.
pub proof fn law_tick_drops_stale_keys(l: LayoutV, s: SmState, now: u64)
    ensures
        forall|j: int|
            0 <= j < tick(l, s, now).0.pending.len() ==> !pending_expired(l, #[trigger] tick(l, s, now).0.pending[j], now)
                && s.pending.contains(tick(l, s, now).0.pending[j]),
        forall|j: int|
            0 <= j < s.pending.len() && !pending_expired(l, #[trigger] s.pending[j], now) ==> tick(
                l,
                s,
                now,
            ).0.pending.contains(s.pending[j]),
{
    lemma_drop_expired(l, s.pending, now);
}

/// The chord timer changes nothing before the earliest rewrite deadline
/// while every pending key's chord window is still open.
pub proof fn law_tick_before_deadline(l: LayoutV, s: SmState, now: u64)
    requires
        s.chord_deadline matches Some(d) ==> now < d,
        forall|j: int| 0 <= j < s.pending.len() ==> !pending_expired(l, #[trigger] s.pending[j], now),
    ensures
        tick(l, s, now) == (s, Seq::<ActionV>::empty()),
{
    lemma_drop_expired(l, s.pending, now);
}

/// Reset erases every tentative character, one backspace per character it
/// shows, leaves nothing pending, held, toggled or active, and a second
/// reset does nothing.
pub proof fn law_reset(s: SmState)
    ensures
        reset(s).1 == backspaces(char_count(s.tentative)),
        reset(s).0.tentative.len() == 0,
        reset(s).0.pending.len() == 0,
        reset(s).0.held.len() == 0,
        reset(s).0.mods.len() == s.mods.len(),
        forall|i: int|
            0 <= i < s.mods.len() ==> {
                let m = #[trigger] reset(s).0.mods[i];
                !m.held && !m.interrupted && !m.oneshot_pending && !m.toggled && m.id == s.mods[i].id
            },
        !reset(s).0.direct_active,
        !reset(s).0.converting,
        reset(s).0.chord_deadline is None,
        reset(reset(s).0) == (reset(s).0, Seq::<ActionV>::empty()),
{
    let r = reset(s).0;
    let rr = reset(r).0;
    assert(rr.mods =~= r.mods);
    assert(rr.tentative =~= r.tentative);
    assert(rr.pending =~= r.pending);
    assert(rr.held =~= r.held);
    assert(backspaces(0) =~= Seq::<ActionV>::empty());
}

} // verus!

verus! {

proof fn lemma_chord_key_order(l: LayoutV, k1: Seq<Seq<char>>, k2: Seq<Seq<char>>, i: int)
    requires
        k1.to_set() == k2.to_set(),
    ensures
        match (chord_match_from(l, k1, i), chord_match_from(l, k2, i)) {
            (Some(a), Some(b)) => a.0 == b.0,
            (None, None) => true,
            _ => false,
        },
    decreases l.chords.len() - i,
{
    if !(i < 0 || i >= l.chords.len()) {
        lemma_chord_key_order(l, k1, k2, i + 1);
    }
}

proof fn lemma_mutual_key_order(l: LayoutV, h1: Seq<Seq<char>>, h2: Seq<Seq<char>>, key: Seq<char>, i: int)
    requires
        h1.to_set() == h2.to_set(),
    ensures
        mutual_chord_from(l, h1, key, i) == mutual_chord_from(l, h2, key, i),
    decreases l.chords.len() - i,
{
    if !(i < 0 || i >= l.chords.len()) {
        let ks = l.chords[i].keys;
        assert forall|j: int| 0 <= j < ks.len() implies (h1.contains(#[trigger] ks[j]) <==> h2.contains(ks[j])) by {
            assert(h1.contains(ks[j]) <==> h1.to_set().contains(ks[j]));
            assert(h2.contains(ks[j]) <==> h2.to_set().contains(ks[j]));
        }
        assert(mutual_candidate(l, h1, key, i) == mutual_candidate(l, h2, key, i));
        lemma_mutual_key_order(l, h1, h2, key, i + 1);
    }
}

proof fn lemma_mutual_longest(l: LayoutV, held: Seq<Seq<char>>, key: Seq<char>, i: int)
    requires
        0 <= i,
    ensures
        match mutual_chord_from(l, held, key, i) {
            Some(c) => {
                &&& i <= c < l.chords.len()
                &&& mutual_candidate(l, held, key, c)
                &&& forall|d: int|
                    i <= d < l.chords.len() && #[trigger] mutual_candidate(l, held, key, d) ==> l.chords[d].keys.len()
                        <= l.chords[c].keys.len()
                &&& forall|d: int|
                    i <= d < c && #[trigger] mutual_candidate(l, held, key, d) ==> l.chords[d].keys.len()
                        < l.chords[c].keys.len()
            },
            None => forall|d: int| i <= d < l.chords.len() ==> !#[trigger] mutual_candidate(l, held, key, d),
        },
    decreases l.chords.len() - i,
{
    if i < l.chords.len() {
        lemma_mutual_longest(l, held, key, i + 1);
    }
}

/// Of the mutual chords that fire for a key (all their keys held, the key
/// among them), the longest is chosen, and of equally long ones the first
/// defined; none is chosen exactly when none fires.
pub proof fn law_mutual_longest(l: LayoutV, held: Seq<Seq<char>>, key: Seq<char>)
    ensures
        match mutual_chord_from(l, held, key, 0) {
            Some(c) => {
                &&& 0 <= c < l.chords.len()
                &&& mutual_candidate(l, held, key, c)
                &&& forall|d: int|
                    0 <= d < l.chords.len() && #[trigger] mutual_candidate(l, held, key, d) ==> l.chords[d].keys.len()
                        <= l.chords[c].keys.len()
                &&& forall|d: int|
                    0 <= d < c && #[trigger] mutual_candidate(l, held, key, d) ==> l.chords[d].keys.len()
                        < l.chords[c].keys.len()
            },
            None => forall|d: int| 0 <= d < l.chords.len() ==> !#[trigger] mutual_candidate(l, held, key, d),
        },
{
    lemma_mutual_longest(l, held, key, 0);
}

/// A mutual chord depends only on which keys are held, not on the order in
/// which they went down.
pub proof fn law_mutual_key_order(l: LayoutV, h1: Seq<Seq<char>>, h2: Seq<Seq<char>>, key: Seq<char>)
    requires
        h1.to_set() == h2.to_set(),
    ensures
        mutual_chord_from(l, h1, key, 0) == mutual_chord_from(l, h2, key, 0),
{
    lemma_mutual_key_order(l, h1, h2, key, 0);
}

/// A timed chord does not depend on the order its keys were pressed in:
/// two pending key sequences with the same keys match the same chord output,
/// or neither matches.
pub proof fn law_chord_key_order(l: LayoutV, k1: Seq<Seq<char>>, k2: Seq<Seq<char>>)
    requires
        k1.to_set() == k2.to_set(),
    ensures
        match (chord_match_from(l, k1, 0), chord_match_from(l, k2, 0)) {
            (Some(a), Some(b)) => a.0 == b.0,
            (None, None) => true,
            _ => false,
        },
{
    lemma_chord_key_order(l, k1, k2, 0);
}

} // verus!
