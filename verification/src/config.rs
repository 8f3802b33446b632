//! Layout files and their compilation into the tables the state machine reads.
use vstd::prelude::*;
use crate::error::{ConfigError, ConfigErrorV};
use crate::strmap::{StrMap, AliasMap, assoc_get, assoc_insert, assoc_distinct, lemma_assoc_insert};
use crate::text::{debug_text, debug_str, strs, is_ws, is_ascii_ws, is_whitespace, is_ascii_whitespace, chars_of, sub_string, str_eq, has_prefix, starts_with, spec_trim, trim, spec_split_ws, split_ws};

verus! {

// ── Plain settings ───────────────────────────────────────────────────────────

#[derive(Debug, Clone, Copy, PartialEq, Eq, Structural)]
pub enum LayoutMode {
    Kana,
    Kanchoku,
    Hybrid,
}

#[derive(Debug, Clone, Copy, PartialEq, Eq, Structural)]
pub enum CapsLockBehavior {
    Shift,
    Ignore,
    Passthrough,
}

#[derive(Debug, Clone, Copy, PartialEq, Eq, Structural)]
pub enum OnFocusChange {
    Preserve,
    Reset,
}

#[derive(Debug, Clone, Copy, PartialEq, Eq, Structural)]
pub enum PreeditFallback {
    Client,
    Panel,
    Buffer,
    Auto,
}

#[derive(Debug, Clone, Copy, PartialEq, Eq, Structural)]
pub enum SensitiveFieldBehavior {
    Passthrough,
    Buffer,
}

#[derive(Debug, Clone, Copy, PartialEq, Eq, Structural)]
pub enum ModifierKind {
    Hold,
    Oneshot,
    /// Tap once to activate the layer; tap again to deactivate.
    Toggle,
}

#[derive(Debug, Clone, Copy, PartialEq, Eq, Structural)]
pub enum HoldDetection {
    Interrupt,
    Timeout,
}

#[derive(Debug, Clone, Copy, PartialEq, Eq, Structural)]
pub enum TapAction {
    /// Pass the key through to the application unchanged.
    Passthrough,
    /// Emit the base-layer output of the key (dual-role key).
    BaseKana,
    /// Emit the string of the `tap_output` field.
    Output,
    /// Do nothing on tap.
    NoAction,
}

#[derive(Debug, Clone, Copy, PartialEq, Eq, Structural)]
pub enum TriggerKind {
    Hold,
    Toggle,
}

#[derive(Debug, Clone, Copy, PartialEq, Eq, Structural)]
pub enum LayerKind {
    Single,
    Prefix,
    Postfix,
    Modified,
}

#[derive(Debug, Clone, Copy, PartialEq, Eq, Structural)]
pub struct Settings {
    pub chord_window_ms: u32,
    pub mutual_window_ms: u32,
    pub caps_lock_behavior: CapsLockBehavior,
    pub on_focus_change: OnFocusChange,
    pub roll_over: bool,
    pub preedit_fallback: PreeditFallback,
    pub sensitive_field_behavior: SensitiveFieldBehavior,
}

impl Default for Settings {
    fn default() -> (s: Self)
        ensures
            s == default_settings(),
    {
        Settings {
            chord_window_ms: 50,
            mutual_window_ms: 80,
            caps_lock_behavior: CapsLockBehavior::Shift,
            on_focus_change: OnFocusChange::Preserve,
            roll_over: true,
            preedit_fallback: PreeditFallback::Panel,
            sensitive_field_behavior: SensitiveFieldBehavior::Passthrough,
        }
    }
}

pub open spec fn default_settings() -> Settings {
    Settings {
        chord_window_ms: 50,
        mutual_window_ms: 80,
        caps_lock_behavior: CapsLockBehavior::Shift,
        on_focus_change: OnFocusChange::Preserve,
        roll_over: true,
        preedit_fallback: PreeditFallback::Panel,
        sensitive_field_behavior: SensitiveFieldBehavior::Passthrough,
    }
}

/// Value of `meta.version` when the file leaves it out.
pub fn default_version() -> (s: String)
    ensures
        s@ == "1.0"@,
{
    String::from_str("1.0")
}

/// Value of `meta.schema` when the file leaves it out.
pub fn default_schema() -> (n: u32)
    ensures
        n == 1,
{
    1
}

/// Value of a modifier's `kind` when the file leaves it out.
pub fn default_hold() -> (k: ModifierKind)
    ensures
        k == ModifierKind::Hold,
{
    ModifierKind::Hold
}

/// Value of `hold_detection` when the file leaves it out.
pub fn default_interrupt() -> (h: HoldDetection)
    ensures
        h == HoldDetection::Interrupt,
{
    HoldDetection::Interrupt
}

/// Value of `hold_timeout_ms` when the file leaves it out.
pub fn default_hold_timeout() -> (n: u32)
    ensures
        n == 150,
{
    150
}

/// Value of `tap_action` when the file leaves it out.
pub fn default_tap_passthrough() -> (t: TapAction)
    ensures
        t == TapAction::Passthrough,
{
    TapAction::Passthrough
}

/// Value of a direct trigger's `kind` when the file leaves it out.
pub fn default_trigger_kind() -> (k: TriggerKind)
    ensures
        k == TriggerKind::Hold,
{
    TriggerKind::Hold
}

// ── Records with strings ─────────────────────────────────────────────────────

pub open spec fn opt_str(o: Option<String>) -> Option<Seq<char>> {
    match o {
        Some(s) => Some(s@),
        None => None,
    }
}

pub fn clone_strings(v: &Vec<String>) -> (r: Vec<String>)
    ensures
        strs(r@) == strs(v@),
        r@ == v@,
{
    let r = v.clone();
    assert(r@ =~= v@);
    r
}

pub fn clone_opt_string(o: &Option<String>) -> (r: Option<String>)
    ensures
        r == *o,
{
    match o {
        Some(s) => Some(s.clone()),
        None => None,
    }
}

pub struct Meta {
    pub name: String,
    pub version: String,
    pub author: String,
    pub mode: LayoutMode,
    pub schema: u32,
}

pub struct MetaV {
    pub name: Seq<char>,
    pub version: Seq<char>,
    pub author: Seq<char>,
    pub mode: LayoutMode,
    pub schema: u32,
}

impl View for Meta {
    type V = MetaV;

    open spec fn view(&self) -> MetaV {
        MetaV {
            name: self.name@,
            version: self.version@,
            author: self.author@,
            mode: self.mode,
            schema: self.schema,
        }
    }
}

impl Meta {
    pub fn clone(&self) -> (r: Self)
        ensures
            r@ == self@,
    {
        Meta {
            name: self.name.clone(),
            version: self.version.clone(),
            author: self.author.clone(),
            mode: self.mode,
            schema: self.schema,
        }
    }
}

pub struct ModifierDef {
    pub id: String,
    pub key: String,
    pub kind: ModifierKind,
    pub hold_detection: HoldDetection,
    pub hold_timeout_ms: u32,
    pub tap_action: TapAction,
    /// Output emitted on tap when `tap_action` is `Output`.
    pub tap_output: Option<String>,
}

pub struct ModifierDefV {
    pub id: Seq<char>,
    pub key: Seq<char>,
    pub kind: ModifierKind,
    pub hold_detection: HoldDetection,
    pub hold_timeout_ms: u32,
    pub tap_action: TapAction,
    pub tap_output: Option<Seq<char>>,
}

impl View for ModifierDef {
    type V = ModifierDefV;

    open spec fn view(&self) -> ModifierDefV {
        ModifierDefV {
            id: self.id@,
            key: self.key@,
            kind: self.kind,
            hold_detection: self.hold_detection,
            hold_timeout_ms: self.hold_timeout_ms,
            tap_action: self.tap_action,
            tap_output: opt_str(self.tap_output),
        }
    }
}

impl DeepView for ModifierDef {
    type V = ModifierDefV;

    open spec fn deep_view(&self) -> ModifierDefV {
        self@
    }
}

impl ModifierDef {
    pub fn clone(&self) -> (r: Self)
        ensures
            r@ == self@,
    {
        ModifierDef {
            id: self.id.clone(),
            key: self.key.clone(),
            kind: self.kind,
            hold_detection: self.hold_detection,
            hold_timeout_ms: self.hold_timeout_ms,
            tap_action: self.tap_action,
            tap_output: clone_opt_string(&self.tap_output),
        }
    }
}

pub struct DirectTriggerDef {
    pub keys: Vec<String>,
    pub kind: TriggerKind,
    pub hold_detection: HoldDetection,
    pub hold_timeout_ms: u32,
    pub tap_action: TapAction,
}

pub struct DirectTriggerDefV {
    pub keys: Seq<Seq<char>>,
    pub kind: TriggerKind,
    pub hold_detection: HoldDetection,
    pub hold_timeout_ms: u32,
    pub tap_action: TapAction,
}

impl View for DirectTriggerDef {
    type V = DirectTriggerDefV;

    open spec fn view(&self) -> DirectTriggerDefV {
        DirectTriggerDefV {
            keys: strs(self.keys@),
            kind: self.kind,
            hold_detection: self.hold_detection,
            hold_timeout_ms: self.hold_timeout_ms,
            tap_action: self.tap_action,
        }
    }
}

impl DirectTriggerDef {
    pub fn clone(&self) -> (r: Self)
        ensures
            r@ == self@,
    {
        DirectTriggerDef {
            keys: clone_strings(&self.keys),
            kind: self.kind,
            hold_detection: self.hold_detection,
            hold_timeout_ms: self.hold_timeout_ms,
            tap_action: self.tap_action,
        }
    }
}

pub open spec fn opt_trigger_view(o: Option<DirectTriggerDef>) -> Option<DirectTriggerDefV> {
    match o {
        Some(t) => Some(t@),
        None => None,
    }
}

pub struct LayerDef {
    pub id: String,
    pub kind: LayerKind,
    pub trigger: Option<String>,
    pub modifier: Option<String>,
    pub grid: String,
}

pub struct ChordRule {
    pub keys: Vec<String>,
    pub output: String,
    pub symmetric: bool,
    pub window_ms: Option<u32>,
}

pub struct ChordRuleV {
    pub keys: Seq<Seq<char>>,
    pub output: Seq<char>,
    pub symmetric: bool,
    pub window_ms: Option<u32>,
}

impl View for ChordRule {
    type V = ChordRuleV;

    open spec fn view(&self) -> ChordRuleV {
        ChordRuleV {
            keys: strs(self.keys@),
            output: self.output@,
            symmetric: self.symmetric,
            window_ms: self.window_ms,
        }
    }
}

impl DeepView for ChordRule {
    type V = ChordRuleV;

    open spec fn deep_view(&self) -> ChordRuleV {
        self@
    }
}

impl ChordRule {
    pub fn clone(&self) -> (r: Self)
        ensures
            r@ == self@,
    {
        ChordRule {
            keys: clone_strings(&self.keys),
            output: self.output.clone(),
            symmetric: self.symmetric,
            window_ms: self.window_ms,
        }
    }
}

pub struct DirectRule {
    pub sequence: Vec<String>,
    pub output: String,
}

pub struct DirectRuleV {
    pub sequence: Seq<Seq<char>>,
    pub output: Seq<char>,
}

impl View for DirectRule {
    type V = DirectRuleV;

    open spec fn view(&self) -> DirectRuleV {
        DirectRuleV { sequence: strs(self.sequence@), output: self.output@ }
    }
}

impl DeepView for DirectRule {
    type V = DirectRuleV;

    open spec fn deep_view(&self) -> DirectRuleV {
        self@
    }
}

impl DirectRule {
    pub fn clone(&self) -> (r: Self)
        ensures
            r@ == self@,
    {
        DirectRule { sequence: clone_strings(&self.sequence), output: self.output.clone() }
    }
}

pub fn clone_modifiers(v: &Vec<ModifierDef>) -> (r: Vec<ModifierDef>)
    ensures
        r.deep_view() == v.deep_view(),
{
    let mut r: Vec<ModifierDef> = Vec::new();
    let mut i: usize = 0;
    while i < v.len()
        invariant
            i <= v.len(),
            r@.len() == i,
            forall|j: int| 0 <= j < i ==> #[trigger] r@[j]@ == v@[j]@,
        decreases v.len() - i,
    {
        r.push(v[i].clone());
        i = i + 1;
    }
    assert(r.deep_view() =~= v.deep_view());
    r
}

pub fn clone_chords(v: &Vec<ChordRule>) -> (r: Vec<ChordRule>)
    ensures
        r.deep_view() == v.deep_view(),
{
    let mut r: Vec<ChordRule> = Vec::new();
    let mut i: usize = 0;
    while i < v.len()
        invariant
            i <= v.len(),
            r@.len() == i,
            forall|j: int| 0 <= j < i ==> #[trigger] r@[j]@ == v@[j]@,
        decreases v.len() - i,
    {
        r.push(v[i].clone());
        i = i + 1;
    }
    assert(r.deep_view() =~= v.deep_view());
    r
}

pub fn clone_directs(v: &Vec<DirectRule>) -> (r: Vec<DirectRule>)
    ensures
        r.deep_view() == v.deep_view(),
{
    let mut r: Vec<DirectRule> = Vec::new();
    let mut i: usize = 0;
    while i < v.len()
        invariant
            i <= v.len(),
            r@.len() == i,
            forall|j: int| 0 <= j < i ==> #[trigger] r@[j]@ == v@[j]@,
        decreases v.len() - i,
    {
        r.push(v[i].clone());
        i = i + 1;
    }
    assert(r.deep_view() =~= v.deep_view());
    r
}

/// A layout file as read from its source.
pub struct LayoutFile {
    pub meta: Meta,
    pub settings: Settings,
    pub modifier: Vec<ModifierDef>,
    pub direct_trigger: Option<DirectTriggerDef>,
    pub layer: Vec<LayerDef>,
    pub chord: Vec<ChordRule>,
    pub direct: Vec<DirectRule>,
    /// Named output sequences: each table maps names to space-separated sequences.
    pub alias: Vec<Vec<(String, String)>>,
}

} // verus!

verus! {

// ── Grid parsing ─────────────────────────────────────────────────────────────

/// Sentinel stored for grid cells marked `XX` (pass the key through).
pub const PASSTHROUGH_CELL: &'static str = "\x00pt";

/// `seq![t]` when `t` is not empty, else nothing.
pub open spec fn keep_nonempty(t: Seq<char>) -> Seq<Seq<char>> {
    if t.len() > 0 {
        seq![t]
    } else {
        Seq::empty()
    }
}

/// Trimmed, non-empty lines of `s[start..]`, scanning from `i`.
pub open spec fn lines_from(s: Seq<char>, i: int, start: int) -> Seq<Seq<char>>
    decreases s.len() - i,
{
    if i < 0 || i >= s.len() {
        keep_nonempty(spec_trim(s.subrange(start, s.len() as int)))
    } else if s[i] == '\n' {
        keep_nonempty(spec_trim(s.subrange(start, i))) + lines_from(s, i + 1, i + 1)
    } else {
        lines_from(s, i + 1, start)
    }
}

/// The lines of a grid, each trimmed, blank lines dropped.
pub open spec fn spec_grid_lines(s: Seq<char>) -> Seq<Seq<char>> {
    lines_from(s, 0, 0)
}

pub(crate) fn grid_lines(grid: &str) -> (r: Vec<String>)
    ensures
        r.deep_view() == spec_grid_lines(grid@),
{
    let cs = chars_of(grid);
    let n = cs.len();
    let mut r: Vec<String> = Vec::new();
    let mut i: usize = 0;
    let mut start: usize = 0;
    while i < n
        invariant
            start <= i <= n,
            n == grid@.len(),
            cs@ == grid@,
            r.deep_view() + lines_from(grid@, i as int, start as int) == spec_grid_lines(grid@),
        decreases n - i,
    {
        if cs[i] == '\n' {
            let t = trim(grid.substring_char(start, i));
            let ghost before = r.deep_view();
            let ghost kept = keep_nonempty(t@);
            if t.unicode_len() > 0 {
                r.push(t);
            }
            proof {
                assert(r.deep_view() =~= before + kept);
                assert(before + kept + lines_from(grid@, i + 1, i + 1) =~= before + (kept
                    + lines_from(grid@, i + 1, i + 1)));
            }
            start = i + 1;
        }
        i = i + 1;
    }
    let t = trim(grid.substring_char(start, n));
    let ghost before = r.deep_view();
    let ghost kept = keep_nonempty(t@);
    if t.unicode_len() > 0 {
        r.push(t);
    }
    assert(r.deep_view() =~= before + kept);
    r
}

pub open spec fn quote_end(s: Seq<char>, i: int) -> int
    decreases s.len() - i,
{
    if i < 0 || i >= s.len() || s[i] == '"' {
        i
    } else {
        quote_end(s, i + 1)
    }
}

pub open spec fn ascii_token_end(s: Seq<char>, i: int) -> int
    decreases s.len() - i,
{
    if i < 0 || i >= s.len() || is_ascii_ws(s[i]) {
        i
    } else {
        ascii_token_end(s, i + 1)
    }
}

/// Cell tokens of a grid row from position `i`: runs separated by ASCII
/// whitespace, where a run opened by `"` extends to the next `"` (exclusive)
/// and may contain spaces.
pub open spec fn row_tokens_from(s: Seq<char>, i: int) -> Seq<Seq<char>>
    decreases s.len() - i,
{
    if i < 0 || i >= s.len() {
        Seq::empty()
    } else if is_ascii_ws(s[i]) {
        row_tokens_from(s, i + 1)
    } else if s[i] == '"' {
        let j = quote_end(s, i + 1);
        if j < i + 1 || j > s.len() {
            Seq::empty()
        } else {
            seq![s.subrange(i + 1, j)] + row_tokens_from(
                s,
                if j < s.len() {
                    j + 1
                } else {
                    j
                },
            )
        }
    } else {
        let j = ascii_token_end(s, i);
        if j <= i || j > s.len() {
            Seq::empty()
        } else {
            seq![s.subrange(i, j)] + row_tokens_from(s, j)
        }
    }
}

pub open spec fn spec_row_tokens(s: Seq<char>) -> Seq<Seq<char>> {
    row_tokens_from(s, 0)
}

proof fn lemma_quote_end(s: Seq<char>, i: int, k: int)
    requires
        0 <= i <= k <= s.len(),
        forall|j: int| i <= j < k ==> #[trigger] s[j] != '"',
        k == s.len() || s[k] == '"',
    ensures
        quote_end(s, i) == k,
    decreases k - i,
{
    if i < k {
        lemma_quote_end(s, i + 1, k);
    }
}

proof fn lemma_ascii_token_end(s: Seq<char>, i: int, k: int)
    requires
        0 <= i <= k <= s.len(),
        forall|j: int| i <= j < k ==> !is_ascii_ws(#[trigger] s[j]),
        k == s.len() || is_ascii_ws(s[k]),
    ensures
        ascii_token_end(s, i) == k,
    decreases k - i,
{
    if i < k {
        lemma_ascii_token_end(s, i + 1, k);
    }
}

/// Split a grid row into cell tokens, honoring `"..."` quoted cells (which
/// may hold spaces and stand for multi-token output sequences).
pub fn tokenize_grid_row(s: &str) -> (r: Vec<String>)
    ensures
        r.deep_view() == spec_row_tokens(s@),
{
    let cs = chars_of(s);
    let n = cs.len();
    let mut r: Vec<String> = Vec::new();
    let mut i: usize = 0;
    while i < n
        invariant
            i <= n,
            n == s@.len(),
            cs@ == s@,
            r.deep_view() + row_tokens_from(s@, i as int) == spec_row_tokens(s@),
        decreases n - i,
    {
        if is_ascii_whitespace(cs[i]) {
            i = i + 1;
        } else if cs[i] == '"' {
            let start = i + 1;
            let mut j = start;
            while j < n && cs[j] != '"'
                invariant
                    start <= j <= n,
                    n == s@.len(),
                    cs@ == s@,
                    forall|k: int| start <= k < j ==> #[trigger] s@[k] != '"',
                decreases n - j,
            {
                j = j + 1;
            }
            proof {
                lemma_quote_end(s@, start as int, j as int);
            }
            let ghost before = r.deep_view();
            let ghost tok = s@.subrange(start as int, j as int);
            r.push(sub_string(s, start, j));
            let next = if j < n {
                j + 1
            } else {
                j
            };
            proof {
                assert(r.deep_view() =~= before.push(tok));
                assert(before.push(tok) + row_tokens_from(s@, next as int) =~= before + (seq![tok]
                    + row_tokens_from(s@, next as int)));
            }
            i = next;
        } else {
            let start = i;
            while i < n && !is_ascii_whitespace(cs[i])
                invariant
                    start <= i <= n,
                    n == s@.len(),
                    cs@ == s@,
                    forall|k: int| start <= k < i ==> !is_ascii_ws(#[trigger] s@[k]),
                decreases n - i,
            {
                i = i + 1;
            }
            proof {
                lemma_ascii_token_end(s@, start as int, i as int);
            }
            let ghost before = r.deep_view();
            let ghost tok = s@.subrange(start as int, i as int);
            r.push(sub_string(s, start, i));
            proof {
                assert(r.deep_view() =~= before.push(tok));
                assert(before.push(tok) + row_tokens_from(s@, i as int) =~= before + (seq![tok]
                    + row_tokens_from(s@, i as int)));
            }
        }
    }
    assert(r.deep_view() + Seq::<Seq<char>>::empty() =~= r.deep_view());
    r
}

} // verus!

verus! {

/// Physical keys of the numbered keyboard rows 0 to 3.
pub open spec fn qwerty_row(label: Seq<char>) -> Option<Seq<Seq<char>>> {
    if label == "0"@ {
        Some(seq!["1"@, "2"@, "3"@, "4"@, "5"@, "6"@, "7"@, "8"@, "9"@, "0"@, "minus"@, "equal"@, "yen"@])
    } else if label == "1"@ {
        Some(seq!["tab"@, "q"@, "w"@, "e"@, "r"@, "t"@, "y"@, "u"@, "i"@, "o"@, "p"@, "bracketleft"@,
            "bracketright"@, "backslash"@])
    } else if label == "2"@ {
        Some(seq!["caps_lock"@, "a"@, "s"@, "d"@, "f"@, "g"@, "h"@, "j"@, "k"@, "l"@, "semicolon"@,
            "quote"@])
    } else if label == "3"@ {
        Some(seq!["lshift"@, "z"@, "x"@, "c"@, "v"@, "b"@, "n"@, "m"@, "comma"@, "period"@, "slash"@,
            "intlro"@])
    } else {
        None
    }
}

fn qwerty_keys(label: &str) -> (r: Option<Vec<String>>)
    ensures
        match qwerty_row(label@) {
            Some(ks) => r matches Some(v) && strs(v@) == ks,
            None => r is None,
        },
{
    let mut v: Vec<String> = Vec::new();
    if str_eq(label, "0") {
        v.push(String::from_str("1"));
        v.push(String::from_str("2"));
        v.push(String::from_str("3"));
        v.push(String::from_str("4"));
        v.push(String::from_str("5"));
        v.push(String::from_str("6"));
        v.push(String::from_str("7"));
        v.push(String::from_str("8"));
        v.push(String::from_str("9"));
        v.push(String::from_str("0"));
        v.push(String::from_str("minus"));
        v.push(String::from_str("equal"));
        v.push(String::from_str("yen"));
        assert(strs(v@) =~= qwerty_row(label@).unwrap());
        Some(v)
    } else if str_eq(label, "1") {
        v.push(String::from_str("tab"));
        v.push(String::from_str("q"));
        v.push(String::from_str("w"));
        v.push(String::from_str("e"));
        v.push(String::from_str("r"));
        v.push(String::from_str("t"));
        v.push(String::from_str("y"));
        v.push(String::from_str("u"));
        v.push(String::from_str("i"));
        v.push(String::from_str("o"));
        v.push(String::from_str("p"));
        v.push(String::from_str("bracketleft"));
        v.push(String::from_str("bracketright"));
        v.push(String::from_str("backslash"));
        assert(strs(v@) =~= qwerty_row(label@).unwrap());
        Some(v)
    } else if str_eq(label, "2") {
        v.push(String::from_str("caps_lock"));
        v.push(String::from_str("a"));
        v.push(String::from_str("s"));
        v.push(String::from_str("d"));
        v.push(String::from_str("f"));
        v.push(String::from_str("g"));
        v.push(String::from_str("h"));
        v.push(String::from_str("j"));
        v.push(String::from_str("k"));
        v.push(String::from_str("l"));
        v.push(String::from_str("semicolon"));
        v.push(String::from_str("quote"));
        assert(strs(v@) =~= qwerty_row(label@).unwrap());
        Some(v)
    } else if str_eq(label, "3") {
        v.push(String::from_str("lshift"));
        v.push(String::from_str("z"));
        v.push(String::from_str("x"));
        v.push(String::from_str("c"));
        v.push(String::from_str("v"));
        v.push(String::from_str("b"));
        v.push(String::from_str("n"));
        v.push(String::from_str("m"));
        v.push(String::from_str("comma"));
        v.push(String::from_str("period"));
        v.push(String::from_str("slash"));
        v.push(String::from_str("intlro"));
        assert(strs(v@) =~= qwerty_row(label@).unwrap());
        Some(v)
    } else {
        None
    }
}

/// A cell that assigns nothing: `＿`, `.` or empty.
pub open spec fn cell_skipped(v: Seq<char>) -> bool {
    v == "＿"@ || v == "."@ || v.len() == 0
}

/// What a cell stores: the pass-through sentinel for `XX`, else the cell text.
pub open spec fn cell_value(v: Seq<char>) -> Seq<char> {
    if v == "XX"@ {
        PASSTHROUGH_CELL@
    } else {
        v
    }
}

/// `acc` with the cells `values[i..]` of one row assigned to `keys`, up to
/// the shorter of the key row and the header's column count.
pub open spec fn fill_row(
    acc: Seq<(Seq<char>, Seq<char>)>,
    keys: Seq<Seq<char>>,
    values: Seq<Seq<char>>,
    col_count: int,
    i: int,
) -> Seq<(Seq<char>, Seq<char>)>
    decreases values.len() - i,
{
    if i < 0 || i >= values.len() || i >= keys.len() || i >= col_count {
        acc
    } else if cell_skipped(values[i]) {
        fill_row(acc, keys, values, col_count, i + 1)
    } else {
        fill_row(assoc_insert(acc, keys[i], cell_value(values[i])), keys, values, col_count, i + 1)
    }
}

pub open spec fn unknown_label_message(label: Seq<char>) -> Seq<char> {
    "unknown row label '"@ + label + "' (expected 0-3 or an explicit '.' header)"@
}

/// The data rows `lines[k..]` of a grid folded into `acc`.
pub open spec fn grid_rows(
    lines: Seq<Seq<char>>,
    k: int,
    col_count: int,
    explicit: Option<Seq<Seq<char>>>,
    acc: Seq<(Seq<char>, Seq<char>)>,
) -> Result<Seq<(Seq<char>, Seq<char>)>, ConfigErrorV>
    decreases lines.len() - k,
{
    if k < 0 || k >= lines.len() {
        Ok(acc)
    } else {
        let cols = spec_row_tokens(lines[k]);
        if cols.len() < 2 {
            grid_rows(lines, k + 1, col_count, explicit, acc)
        } else if cols[0] == "."@ {
            grid_rows(lines, k + 1, col_count, Some(cols.drop_first()), acc)
        } else {
            let key_row = match explicit {
                Some(ek) => Some(ek),
                None => qwerty_row(cols[0]),
            };
            match key_row {
                None => Err(ConfigErrorV::GridParse(unknown_label_message(cols[0]))),
                Some(kr) => grid_rows(
                    lines,
                    k + 1,
                    col_count,
                    explicit,
                    fill_row(acc, kr, cols.drop_first(), col_count, 0),
                ),
            }
        }
    }
}

/// A data row labelled 0, 1, 2 or 3, with no explicit key header in force,
/// stores its cells, in order, under the keys of that keyboard row: 0 the
/// number row (1 … 0 minus equal yen), 1 the top row (tab q w e r t y u i o
/// p bracketleft bracketright backslash), 2 the home row (caps_lock a s d f
/// g h j k l semicolon quote), 3 the bottom row (lshift z x c v b n m comma
/// period slash intlro). So cell 8 of row 3 is the comma key.
pub proof fn law_row_labels(
    lines: Seq<Seq<char>>,
    k: int,
    col_count: int,
    acc: Seq<(Seq<char>, Seq<char>)>,
)
    requires
        0 <= k < lines.len(),
        spec_row_tokens(lines[k]).len() >= 2,
    ensures
        spec_row_tokens(lines[k])[0] == "0"@ ==> grid_rows(lines, k, col_count, None, acc) == grid_rows(
            lines,
            k + 1,
            col_count,
            None,
            fill_row(
                acc,
                seq![
                    "1"@,
                    "2"@,
                    "3"@,
                    "4"@,
                    "5"@,
                    "6"@,
                    "7"@,
                    "8"@,
                    "9"@,
                    "0"@,
                    "minus"@,
                    "equal"@,
                    "yen"@,
                ],
                spec_row_tokens(lines[k]).drop_first(),
                col_count,
                0,
            ),
        ),
        spec_row_tokens(lines[k])[0] == "1"@ ==> grid_rows(lines, k, col_count, None, acc) == grid_rows(
            lines,
            k + 1,
            col_count,
            None,
            fill_row(
                acc,
                seq![
                    "tab"@,
                    "q"@,
                    "w"@,
                    "e"@,
                    "r"@,
                    "t"@,
                    "y"@,
                    "u"@,
                    "i"@,
                    "o"@,
                    "p"@,
                    "bracketleft"@,
                    "bracketright"@,
                    "backslash"@,
                ],
                spec_row_tokens(lines[k]).drop_first(),
                col_count,
                0,
            ),
        ),
        spec_row_tokens(lines[k])[0] == "2"@ ==> grid_rows(lines, k, col_count, None, acc) == grid_rows(
            lines,
            k + 1,
            col_count,
            None,
            fill_row(
                acc,
                seq![
                    "caps_lock"@,
                    "a"@,
                    "s"@,
                    "d"@,
                    "f"@,
                    "g"@,
                    "h"@,
                    "j"@,
                    "k"@,
                    "l"@,
                    "semicolon"@,
                    "quote"@,
                ],
                spec_row_tokens(lines[k]).drop_first(),
                col_count,
                0,
            ),
        ),
        spec_row_tokens(lines[k])[0] == "3"@ ==> grid_rows(lines, k, col_count, None, acc) == grid_rows(
            lines,
            k + 1,
            col_count,
            None,
            fill_row(
                acc,
                seq![
                    "lshift"@,
                    "z"@,
                    "x"@,
                    "c"@,
                    "v"@,
                    "b"@,
                    "n"@,
                    "m"@,
                    "comma"@,
                    "period"@,
                    "slash"@,
                    "intlro"@,
                ],
                spec_row_tokens(lines[k]).drop_first(),
                col_count,
                0,
            ),
        ),
{
    reveal_strlit(".");
    reveal_strlit("0");
    reveal_strlit("1");
    reveal_strlit("2");
    reveal_strlit("3");
    let cols = spec_row_tokens(lines[k]);
    assert("."@[0] == '.' && "0"@[0] == '0' && "1"@[0] == '1' && "2"@[0] == '2' && "3"@[0] == '3');
    if cols[0] == "0"@ {
        assert(cols[0][0] == '0');
        assert(cols[0] != "."@);
    }
    if cols[0] == "1"@ {
        assert(cols[0][0] == '1');
        assert(cols[0] != "."@);
    }
    if cols[0] == "2"@ {
        assert(cols[0][0] == '2');
        assert(cols[0] != "."@);
    }
    if cols[0] == "3"@ {
        assert(cols[0][0] == '3');
        assert(cols[0] != "."@);
    }
}

/// The key → output table a grid defines.
pub open spec fn spec_parse_grid(grid: Seq<char>) -> Result<Seq<(Seq<char>, Seq<char>)>, ConfigErrorV> {
    let lines = spec_grid_lines(grid);
    if lines.len() == 0 {
        Ok(Seq::empty())
    } else {
        let header = spec_split_ws(lines[0]);
        if header.len() == 0 || header[0] != "."@ {
            Err(ConfigErrorV::GridParse("grid header must start with '.'"@))
        } else {
            grid_rows(lines, 1, header.len() - 1, None, Seq::empty())
        }
    }
}

proof fn lemma_fill_row_distinct(
    acc: Seq<(Seq<char>, Seq<char>)>,
    keys: Seq<Seq<char>>,
    values: Seq<Seq<char>>,
    col_count: int,
    i: int,
)
    requires
        assoc_distinct(acc),
    ensures
        assoc_distinct(fill_row(acc, keys, values, col_count, i)),
    decreases values.len() - i,
{
    if !(i < 0 || i >= values.len() || i >= keys.len() || i >= col_count) {
        if cell_skipped(values[i]) {
            lemma_fill_row_distinct(acc, keys, values, col_count, i + 1);
        } else {
            lemma_assoc_insert(acc, keys[i], cell_value(values[i]));
            lemma_fill_row_distinct(
                assoc_insert(acc, keys[i], cell_value(values[i])),
                keys,
                values,
                col_count,
                i + 1,
            );
        }
    }
}

fn fill_row_exec(map: &mut StrMap, keys: &Vec<String>, values: &Vec<String>, col_count: usize)
    requires
        old(map).wf(),
        values@.len() >= 1,
    ensures
        final(map)@ == fill_row(old(map)@, strs(keys@), strs(values@).drop_first(), col_count as int, 0),
        final(map).wf(),
{
    let ghost vals = strs(values@).drop_first();
    let mut i: usize = 0;
    while i < values.len() - 1 && i < keys.len() && i < col_count
        invariant
            map.wf(),
            i < values@.len(),
            vals == strs(values@).drop_first(),
            vals.len() == values@.len() - 1,
            fill_row(old(map)@, strs(keys@), vals, col_count as int, 0) == fill_row(
                map@,
                strs(keys@),
                vals,
                col_count as int,
                i as int,
            ),
        decreases values.len() - i,
    {
        let value = &values[i + 1];
        assert(vals[i as int] == value@);
        if str_eq(value.as_str(), "＿") || str_eq(value.as_str(), ".") || value.unicode_len() == 0 {
        } else {
            let stored = if str_eq(value.as_str(), "XX") {
                String::from_str(PASSTHROUGH_CELL)
            } else {
                value.clone()
            };
            proof {
                lemma_assoc_insert(map@, keys@[i as int]@, stored@);
            }
            map.insert(keys[i].clone(), stored);
        }
        i = i + 1;
    }
}

/// Parse a grid string into a table of key → output.
///
/// The header line (`. col1 col2 ...`) fixes the number of columns. Numbered
/// rows 0–3 map their cells to the physical keys of that keyboard row; a line
/// starting with `.` names the keys of the rows after it explicitly.
pub fn parse_grid(grid: &str) -> (r: Result<StrMap, ConfigError>)
    ensures
        match spec_parse_grid(grid@) {
            Ok(m) => r matches Ok(map) && map@ == m && map.wf(),
            Err(e) => r matches Err(err) && err@ == e,
        },
{
    let mut map = StrMap::new();
    let lines = grid_lines(grid);
    let ghost lv = lines.deep_view();
    if lines.len() == 0 {
        return Ok(map);
    }
    let header = split_ws(lines[0].as_str());
    assert(header.deep_view() == spec_split_ws(lv[0]));
    if header.len() == 0 || !str_eq(header[0].as_str(), ".") {
        assert(header.len() > 0 ==> header.deep_view()[0] == header@[0]@);
        return Err(ConfigError::GridParse(String::from_str("grid header must start with '.'")));
    }
    assert(header.deep_view()[0] == header@[0]@);
    let col_count = header.len() - 1;
    let mut explicit_keys: Option<Vec<String>> = None;
    let mut k: usize = 1;
    while k < lines.len()
        invariant
            1 <= k <= lines.len(),
            lv == lines.deep_view(),
            map.wf(),
            col_count + 1 == spec_split_ws(lv[0]).len(),
            spec_parse_grid(grid@) == grid_rows(
                lv,
                k as int,
                col_count as int,
                match explicit_keys {
                    Some(ek) => Some(strs(ek@)),
                    None => None,
                },
                map@,
            ),
        decreases lines.len() - k,
    {
        let cols = tokenize_grid_row(lines[k].as_str());
        assert(cols.deep_view() == spec_row_tokens(lv[k as int]));
        assert(cols.deep_view() =~= strs(cols@));
        if cols.len() < 2 {
            k = k + 1;
            continue;
        }
        if str_eq(cols[0].as_str(), ".") {
            let mut ek: Vec<String> = Vec::new();
            let mut j: usize = 1;
            while j < cols.len()
                invariant
                    1 <= j <= cols.len(),
                    ek@ == cols@.subrange(1, j as int),
                decreases cols.len() - j,
            {
                ek.push(cols[j].clone());
                j = j + 1;
                assert(ek@ =~= cols@.subrange(1, j as int));
            }
            assert(strs(ek@) =~= strs(cols@).drop_first());
            explicit_keys = Some(ek);
            k = k + 1;
            continue;
        }
        let key_row: Vec<String> = match &explicit_keys {
            Some(ek) => clone_strings(ek),
            None => match qwerty_keys(cols[0].as_str()) {
                Some(v) => v,
                None => {
                    let msg = String::from_str("unknown row label '").concat(cols[0].as_str()).concat(
                        "' (expected 0-3 or an explicit '.' header)",
                    );
                    return Err(ConfigError::GridParse(msg));
                },
            },
        };
        fill_row_exec(&mut map, &key_row, &cols, col_count);
        k = k + 1;
    }
    Ok(map)
}

} // verus!

verus! {

// ── Function key names ───────────────────────────────────────────────────────

/// Key names accepted after the `!` prefix in output strings.
pub open spec fn is_valid_function_key(name: Seq<char>) -> bool {
    name == "Return"@
        || name == "Tab"@
        || name == "Escape"@
        || name == "BackSpace"@
        || name == "Delete"@
        || name == "Home"@
        || name == "End"@
        || name == "Insert"@
        || name == "Up"@
        || name == "Down"@
        || name == "Left"@
        || name == "Right"@
        || name == "Prior"@
        || name == "Next"@
        || name == "PageUp"@
        || name == "PageDown"@
        || name == "F1"@
        || name == "F2"@
        || name == "F3"@
        || name == "F4"@
        || name == "F5"@
        || name == "F6"@
        || name == "F7"@
        || name == "F8"@
        || name == "F9"@
        || name == "F10"@
        || name == "F11"@
        || name == "F12"@
        || name == "space"@
        || name == "Henkan"@
        || name == "Muhenkan"@
        || name == "Hiragana_Katakana"@
}

/// Whether `name` is one of the key names accepted after `!` in outputs.
pub fn valid_function_key(name: &str) -> (b: bool)
    ensures
        b == is_valid_function_key(name@),
{
    str_eq(name, "Return")
        || str_eq(name, "Tab")
        || str_eq(name, "Escape")
        || str_eq(name, "BackSpace")
        || str_eq(name, "Delete")
        || str_eq(name, "Home")
        || str_eq(name, "End")
        || str_eq(name, "Insert")
        || str_eq(name, "Up")
        || str_eq(name, "Down")
        || str_eq(name, "Left")
        || str_eq(name, "Right")
        || str_eq(name, "Prior")
        || str_eq(name, "Next")
        || str_eq(name, "PageUp")
        || str_eq(name, "PageDown")
        || str_eq(name, "F1")
        || str_eq(name, "F2")
        || str_eq(name, "F3")
        || str_eq(name, "F4")
        || str_eq(name, "F5")
        || str_eq(name, "F6")
        || str_eq(name, "F7")
        || str_eq(name, "F8")
        || str_eq(name, "F9")
        || str_eq(name, "F10")
        || str_eq(name, "F11")
        || str_eq(name, "F12")
        || str_eq(name, "space")
        || str_eq(name, "Henkan")
        || str_eq(name, "Muhenkan")
        || str_eq(name, "Hiragana_Katakana")
}

} // verus!

verus! {

// ── Compiled layout ──────────────────────────────────────────────────────────

pub type Table = Seq<(Seq<char>, Seq<char>)>;

pub open spec fn tables_view(v: Seq<(String, StrMap)>) -> Seq<(Seq<char>, Table)> {
    Seq::new(v.len(), |i: int| (v[i].0@, v[i].1@))
}

/// Compiled layout ready for use by the state machine.
pub struct Layout {
    pub meta: Meta,
    pub settings: Settings,
    pub modifiers: Vec<ModifierDef>,
    pub direct_trigger: Option<DirectTriggerDef>,
    /// Base layer: key → raw output string.
    pub base_layer: StrMap,
    /// Prefix layers: trigger key → (key → raw output string).
    pub prefix_layers: Vec<(String, StrMap)>,
    /// Postfix layers: trigger key → (key → raw output string).
    pub postfix_layers: Vec<(String, StrMap)>,
    /// Modified layers: modifier id → (key → raw output string).
    pub modified_layers: Vec<(String, StrMap)>,
    pub chords: Vec<ChordRule>,
    pub directs: Vec<DirectRule>,
    /// Named output sequences: alias name → output tokens.
    pub aliases: AliasMap,
}

pub struct LayoutV {
    pub meta: MetaV,
    pub settings: Settings,
    pub modifiers: Seq<ModifierDefV>,
    pub direct_trigger: Option<DirectTriggerDefV>,
    pub base_layer: Table,
    pub prefix_layers: Seq<(Seq<char>, Table)>,
    pub postfix_layers: Seq<(Seq<char>, Table)>,
    pub modified_layers: Seq<(Seq<char>, Table)>,
    pub chords: Seq<ChordRuleV>,
    pub directs: Seq<DirectRuleV>,
    pub aliases: Seq<(Seq<char>, Seq<Seq<char>>)>,
}

impl View for Layout {
    type V = LayoutV;

    open spec fn view(&self) -> LayoutV {
        LayoutV {
            meta: self.meta@,
            settings: self.settings,
            modifiers: self.modifiers.deep_view(),
            direct_trigger: opt_trigger_view(self.direct_trigger),
            base_layer: self.base_layer@,
            prefix_layers: tables_view(self.prefix_layers@),
            postfix_layers: tables_view(self.postfix_layers@),
            modified_layers: tables_view(self.modified_layers@),
            chords: self.chords.deep_view(),
            directs: self.directs.deep_view(),
            aliases: self.aliases@,
        }
    }
}

// ── Layer tables ─────────────────────────────────────────────────────────────

pub type LayerTables = (Table, Seq<(Seq<char>, Table)>, Seq<(Seq<char>, Table)>, Seq<(Seq<char>, Table)>);

pub open spec fn missing_message(id: Seq<char>, what: Seq<char>) -> Seq<char> {
    "layer '"@ + id + what
}

/// The layers `layers[i..]` compiled into the tables `acc`: a single layer
/// replaces the base layer, the others are appended to their list in order.
pub open spec fn spec_layers(layers: Seq<LayerDef>, i: int, acc: LayerTables) -> Result<LayerTables, ConfigErrorV>
    decreases layers.len() - i,
{
    if i < 0 || i >= layers.len() {
        Ok(acc)
    } else {
        let layer = layers[i];
        match spec_parse_grid(layer.grid@) {
            Err(e) => Err(e),
            Ok(g) => match layer.kind {
                LayerKind::Single => spec_layers(layers, i + 1, (g, acc.1, acc.2, acc.3)),
                LayerKind::Prefix => match layer.trigger {
                    None => Err(ConfigErrorV::MissingField(missing_message(layer.id@, "' kind=prefix requires trigger"@))),
                    Some(t) => spec_layers(layers, i + 1, (acc.0, acc.1.push((t@, g)), acc.2, acc.3)),
                },
                LayerKind::Postfix => match layer.trigger {
                    None => Err(ConfigErrorV::MissingField(missing_message(layer.id@, "' kind=postfix requires trigger"@))),
                    Some(t) => spec_layers(layers, i + 1, (acc.0, acc.1, acc.2.push((t@, g)), acc.3)),
                },
                LayerKind::Modified => match layer.modifier {
                    None => Err(ConfigErrorV::MissingField(missing_message(layer.id@, "' kind=modified requires modifier"@))),
                    Some(m) => spec_layers(layers, i + 1, (acc.0, acc.1, acc.2, acc.3.push((m@, g)))),
                },
            },
        }
    }
}

pub open spec fn empty_alias_message(name: Seq<char>) -> Seq<char> {
    "alias '"@ + name + "' has an empty sequence; at least one token is required"@
}

/// All alias tables folded into one map, from table `t`, entry `k` on.
pub open spec fn spec_aliases(
    tables: Seq<Vec<(String, String)>>,
    t: int,
    k: int,
    acc: Seq<(Seq<char>, Seq<Seq<char>>)>,
) -> Result<Seq<(Seq<char>, Seq<Seq<char>>)>, ConfigErrorV>
    decreases tables.len() - t, tables[t]@.len() - k,
{
    if t < 0 || t >= tables.len() {
        Ok(acc)
    } else if k < 0 || k >= tables[t]@.len() {
        spec_aliases(tables, t + 1, 0, acc)
    } else {
        let (name, seq) = tables[t]@[k];
        let tokens = spec_split_ws(seq@);
        if tokens.len() == 0 {
            Err(ConfigErrorV::MissingField(empty_alias_message(name@)))
        } else {
            spec_aliases(tables, t, k + 1, assoc_insert(acc, name@, tokens))
        }
    }
}

fn compile_layers(layers: &Vec<LayerDef>) -> (r: Result<(StrMap, Vec<(String, StrMap)>, Vec<(String, StrMap)>, Vec<(String, StrMap)>), ConfigError>)
    ensures
        match spec_layers(layers@, 0, (Seq::empty(), Seq::empty(), Seq::empty(), Seq::empty())) {
            Ok(t) => r matches Ok(x) && x.0@ == t.0 && tables_view(x.1@) == t.1 && tables_view(x.2@) == t.2
                && tables_view(x.3@) == t.3,
            Err(e) => r matches Err(er) && er@ == e,
        },
{
    let mut base = StrMap::new();
    let mut prefix: Vec<(String, StrMap)> = Vec::new();
    let mut postfix: Vec<(String, StrMap)> = Vec::new();
    let mut modified: Vec<(String, StrMap)> = Vec::new();
    let mut i: usize = 0;
    assert(tables_view(prefix@) =~= Seq::<(Seq<char>, Table)>::empty());
    assert(tables_view(postfix@) =~= Seq::<(Seq<char>, Table)>::empty());
    assert(tables_view(modified@) =~= Seq::<(Seq<char>, Table)>::empty());
    while i < layers.len()
        invariant
            i <= layers.len(),
            spec_layers(layers@, 0, (Seq::empty(), Seq::empty(), Seq::empty(), Seq::empty()))
                == spec_layers(layers@, i as int, (base@, tables_view(prefix@), tables_view(postfix@), tables_view(modified@))),
        decreases layers.len() - i,
    {
        let layer = &layers[i];
        let grid = match parse_grid(layer.grid.as_str()) {
            Ok(g) => g,
            Err(e) => return Err(e),
        };
        let ghost gv = grid@;
        match layer.kind {
            LayerKind::Single => {
                base = grid;
            },
            LayerKind::Prefix => match &layer.trigger {
                Some(t) => {
                    let ghost before = tables_view(prefix@);
                    prefix.push((t.clone(), grid));
                    assert(tables_view(prefix@) =~= before.push((t@, gv)));
                },
                None => {
                    let msg = String::from_str("layer '").concat(layer.id.as_str()).concat("' kind=prefix requires trigger");
                    assert(msg@ =~= missing_message(layer.id@, "' kind=prefix requires trigger"@));
                    return Err(ConfigError::MissingField(msg));
                },
            },
            LayerKind::Postfix => match &layer.trigger {
                Some(t) => {
                    let ghost before = tables_view(postfix@);
                    postfix.push((t.clone(), grid));
                    assert(tables_view(postfix@) =~= before.push((t@, gv)));
                },
                None => {
                    let msg = String::from_str("layer '").concat(layer.id.as_str()).concat("' kind=postfix requires trigger");
                    assert(msg@ =~= missing_message(layer.id@, "' kind=postfix requires trigger"@));
                    return Err(ConfigError::MissingField(msg));
                },
            },
            LayerKind::Modified => match &layer.modifier {
                Some(m) => {
                    let ghost before = tables_view(modified@);
                    modified.push((m.clone(), grid));
                    assert(tables_view(modified@) =~= before.push((m@, gv)));
                },
                None => {
                    let msg = String::from_str("layer '").concat(layer.id.as_str()).concat("' kind=modified requires modifier");
                    assert(msg@ =~= missing_message(layer.id@, "' kind=modified requires modifier"@));
                    return Err(ConfigError::MissingField(msg));
                },
            },
        }
        i = i + 1;
    }
    Ok((base, prefix, postfix, modified))
}

fn compile_aliases(tables: &Vec<Vec<(String, String)>>) -> (r: Result<AliasMap, ConfigError>)
    ensures
        match spec_aliases(tables@, 0, 0, Seq::empty()) {
            Ok(a) => r matches Ok(x) && x@ == a,
            Err(e) => r matches Err(er) && er@ == e,
        },
{
    let mut aliases = AliasMap::new();
    let mut t: usize = 0;
    while t < tables.len()
        invariant
            t <= tables.len(),
            spec_aliases(tables@, 0, 0, Seq::empty()) == spec_aliases(tables@, t as int, 0, aliases@),
        decreases tables.len() - t,
    {
        let table = &tables[t];
        let mut k: usize = 0;
        while k < table.len()
            invariant
                t < tables.len(),
                table == tables@[t as int],
                k <= table@.len(),
                spec_aliases(tables@, 0, 0, Seq::empty()) == spec_aliases(tables@, t as int, k as int, aliases@),
            decreases table@.len() - k,
        {
            let tokens = split_ws(table[k].1.as_str());
            if tokens.len() == 0 {
                let msg = String::from_str("alias '").concat(table[k].0.as_str()).concat(
                    "' has an empty sequence; at least one token is required",
                );
                assert(msg@ =~= empty_alias_message(table@[k as int].0@));
                return Err(ConfigError::MissingField(msg));
            }
            assert(tokens.deep_view() =~= strs(tokens@));
            aliases.insert(table[k].0.clone(), tokens);
            k = k + 1;
        }
        t = t + 1;
    }
    Ok(aliases)
}

} // verus!

verus! {

// ── Validation ───────────────────────────────────────────────────────────────

/// The items of a list, each rendered as `{:?}` renders a string, joined by `", "`.
pub open spec fn debug_items(items: Seq<Seq<char>>) -> Seq<char>
    decreases items.len(),
{
    if items.len() == 0 {
        Seq::empty()
    } else if items.len() == 1 {
        debug_text(items[0])
    } else {
        debug_items(items.drop_last()) + ", "@ + debug_text(items.last())
    }
}

/// How `{:?}` renders a list of strings: `[`, the items, `]`.
pub open spec fn debug_str_list(items: Seq<Seq<char>>) -> Seq<char> {
    "["@ + debug_items(items) + "]"@
}

/// `{:?}` of a list of strings.
fn debug_strings(v: &Vec<String>) -> (s: String)
    ensures
        s@ == debug_str_list(strs(v@)),
{
    let mut out = String::new();
    let mut i: usize = 0;
    while i < v.len()
        invariant
            i <= v@.len(),
            out@ == debug_items(strs(v@).take(i as int)),
        decreases v@.len() - i,
    {
        let ghost before = strs(v@).take(i as int);
        assert(strs(v@).take(i + 1).drop_last() =~= before);
        let item = debug_str(v[i].as_str());
        if i > 0 {
            out = out.concat(", ");
        }
        out = out.concat(item.as_str());
        proof {
            reveal_strlit(", ");
        }
        i = i + 1;
    }
    assert(strs(v@).take(i as int) =~= strs(v@));
    proof {
        reveal_strlit("[");
        reveal_strlit("]");
    }
    String::from_str("[").concat(out.as_str()).concat("]")
}

pub open spec fn or_error(a: Option<ConfigErrorV>, b: Option<ConfigErrorV>) -> Option<ConfigErrorV> {
    if a is Some {
        a
    } else {
        b
    }
}

/// Whether two string lists hold the same strings.
pub fn strings_eq(a: &Vec<String>, b: &Vec<String>) -> (r: bool)
    ensures
        r == (strs(a@) == strs(b@)),
{
    if a.len() != b.len() {
        assert(strs(a@).len() != strs(b@).len());
        return false;
    }
    let mut i: usize = 0;
    while i < a.len()
        invariant
            a.len() == b.len(),
            i <= a.len(),
            forall|j: int| 0 <= j < i ==> #[trigger] a@[j]@ == b@[j]@,
        decreases a.len() - i,
    {
        if !(a[i] == b[i]) {
            assert(strs(a@)[i as int] != strs(b@)[i as int]);
            return false;
        }
        i = i + 1;
    }
    assert(strs(a@) =~= strs(b@));
    true
}

/// Position of the first rule in `ds[i..upto]` with sequence `s`.
pub open spec fn first_sequence_from(ds: Seq<DirectRuleV>, s: Seq<Seq<char>>, i: int, upto: int) -> Option<int>
    decreases upto - i,
{
    if i < 0 || i >= upto || i >= ds.len() {
        None
    } else if ds[i].sequence == s {
        Some(i)
    } else {
        first_sequence_from(ds, s, i + 1, upto)
    }
}

pub open spec fn conflict_message(s: Seq<Seq<char>>, a: Seq<char>, b: Seq<char>) -> Seq<char> {
    "duplicate [[direct]] sequence "@ + debug_str_list(s) + " with different outputs: '"@ + a + "' vs '"@
        + b + "'"@
}

/// The first rule of `ds[j..]` whose sequence was already given, earlier, a
/// different output (compared with that earlier rule's output).
pub open spec fn direct_conflict_from(ds: Seq<DirectRuleV>, j: int) -> Option<ConfigErrorV>
    decreases ds.len() - j,
{
    if j < 0 || j >= ds.len() {
        None
    } else {
        match first_sequence_from(ds, ds[j].sequence, 0, j) {
            Some(i) => if ds[i].output != ds[j].output {
                Some(ConfigErrorV::Conflict(conflict_message(ds[j].sequence, ds[i].output, ds[j].output)))
            } else {
                direct_conflict_from(ds, j + 1)
            },
            None => direct_conflict_from(ds, j + 1),
        }
    }
}

/// `t` with its leading modifier prefixes (`S-`, `C-`, `A-`, `M-`) removed.
pub open spec fn strip_mods(t: Seq<char>) -> Seq<char>
    decreases t.len(),
{
    if t.len() >= 2 && t[1] == '-' && (t[0] == 'S' || t[0] == 'C' || t[0] == 'A' || t[0] == 'M') {
        strip_mods(t.subrange(2, t.len() as int))
    } else {
        t
    }
}

pub open spec fn function_key_message(name: Seq<char>) -> Seq<char> {
    "unknown function key '!"@ + name + "'; see the layout documentation for valid names"@
}

/// The error for an output token that names an unknown function key.
pub open spec fn token_error(t: Seq<char>) -> Option<ConfigErrorV> {
    let u = strip_mods(t);
    if u.len() > 0 && u[0] == '!' && !is_valid_function_key(u.drop_first()) {
        Some(ConfigErrorV::GridParse(function_key_message(u.drop_first())))
    } else {
        None
    }
}

/// An output token `!K` names a function key exactly when `K` is one of the
/// documented names: Return, Tab, Escape, BackSpace, Delete, Home, End,
/// Insert, Up, Down, Left, Right, Prior, Next, PageUp, PageDown, F1 to F12,
/// space, Henkan, Muhenkan and Hiragana_Katakana. Any other `!K` is refused
/// as an unknown function key.
pub proof fn law_function_key_tokens(name: Seq<char>)
    ensures
        token_error(seq!['!'] + name) is None <==> seq![
            "Return"@,
            "Tab"@,
            "Escape"@,
            "BackSpace"@,
            "Delete"@,
            "Home"@,
            "End"@,
            "Insert"@,
            "Up"@,
            "Down"@,
            "Left"@,
            "Right"@,
            "Prior"@,
            "Next"@,
            "PageUp"@,
            "PageDown"@,
            "F1"@,
            "F2"@,
            "F3"@,
            "F4"@,
            "F5"@,
            "F6"@,
            "F7"@,
            "F8"@,
            "F9"@,
            "F10"@,
            "F11"@,
            "F12"@,
            "space"@,
            "Henkan"@,
            "Muhenkan"@,
            "Hiragana_Katakana"@,
        ].contains(name),
        token_error(seq!['!'] + name) is Some ==> token_error(seq!['!'] + name) == Some(
            ConfigErrorV::GridParse(function_key_message(name)),
        ),
{
    let keys = seq![
            "Return"@,
            "Tab"@,
            "Escape"@,
            "BackSpace"@,
            "Delete"@,
            "Home"@,
            "End"@,
            "Insert"@,
            "Up"@,
            "Down"@,
            "Left"@,
            "Right"@,
            "Prior"@,
            "Next"@,
            "PageUp"@,
            "PageDown"@,
            "F1"@,
            "F2"@,
            "F3"@,
            "F4"@,
            "F5"@,
            "F6"@,
            "F7"@,
            "F8"@,
            "F9"@,
            "F10"@,
            "F11"@,
            "F12"@,
            "space"@,
            "Henkan"@,
            "Muhenkan"@,
            "Hiragana_Katakana"@,
        ];
    let t = seq!['!'] + name;
    assert(t.drop_first() =~= name);
    assert(!(t.len() >= 2 && t[1] == '-' && (t[0] == 'S' || t[0] == 'C' || t[0] == 'A' || t[0] == 'M')));
    assert(strip_mods(t) == t);
    if name == "Return"@ {
        assert(keys[0] == name);
    }
    if name == "Tab"@ {
        assert(keys[1] == name);
    }
    if name == "Escape"@ {
        assert(keys[2] == name);
    }
    if name == "BackSpace"@ {
        assert(keys[3] == name);
    }
    if name == "Delete"@ {
        assert(keys[4] == name);
    }
    if name == "Home"@ {
        assert(keys[5] == name);
    }
    if name == "End"@ {
        assert(keys[6] == name);
    }
    if name == "Insert"@ {
        assert(keys[7] == name);
    }
    if name == "Up"@ {
        assert(keys[8] == name);
    }
    if name == "Down"@ {
        assert(keys[9] == name);
    }
    if name == "Left"@ {
        assert(keys[10] == name);
    }
    if name == "Right"@ {
        assert(keys[11] == name);
    }
    if name == "Prior"@ {
        assert(keys[12] == name);
    }
    if name == "Next"@ {
        assert(keys[13] == name);
    }
    if name == "PageUp"@ {
        assert(keys[14] == name);
    }
    if name == "PageDown"@ {
        assert(keys[15] == name);
    }
    if name == "F1"@ {
        assert(keys[16] == name);
    }
    if name == "F2"@ {
        assert(keys[17] == name);
    }
    if name == "F3"@ {
        assert(keys[18] == name);
    }
    if name == "F4"@ {
        assert(keys[19] == name);
    }
    if name == "F5"@ {
        assert(keys[20] == name);
    }
    if name == "F6"@ {
        assert(keys[21] == name);
    }
    if name == "F7"@ {
        assert(keys[22] == name);
    }
    if name == "F8"@ {
        assert(keys[23] == name);
    }
    if name == "F9"@ {
        assert(keys[24] == name);
    }
    if name == "F10"@ {
        assert(keys[25] == name);
    }
    if name == "F11"@ {
        assert(keys[26] == name);
    }
    if name == "F12"@ {
        assert(keys[27] == name);
    }
    if name == "space"@ {
        assert(keys[28] == name);
    }
    if name == "Henkan"@ {
        assert(keys[29] == name);
    }
    if name == "Muhenkan"@ {
        assert(keys[30] == name);
    }
    if name == "Hiragana_Katakana"@ {
        assert(keys[31] == name);
    }
    assert forall|i: int| 0 <= i < keys.len() implies is_valid_function_key(#[trigger] keys[i]) by {
        if i == 0 {
            assert(keys[i] == "Return"@);
        } else if i == 1 {
            assert(keys[i] == "Tab"@);
        } else if i == 2 {
            assert(keys[i] == "Escape"@);
        } else if i == 3 {
            assert(keys[i] == "BackSpace"@);
        } else if i == 4 {
            assert(keys[i] == "Delete"@);
        } else if i == 5 {
            assert(keys[i] == "Home"@);
        } else if i == 6 {
            assert(keys[i] == "End"@);
        } else if i == 7 {
            assert(keys[i] == "Insert"@);
        } else if i == 8 {
            assert(keys[i] == "Up"@);
        } else if i == 9 {
            assert(keys[i] == "Down"@);
        } else if i == 10 {
            assert(keys[i] == "Left"@);
        } else if i == 11 {
            assert(keys[i] == "Right"@);
        } else if i == 12 {
            assert(keys[i] == "Prior"@);
        } else if i == 13 {
            assert(keys[i] == "Next"@);
        } else if i == 14 {
            assert(keys[i] == "PageUp"@);
        } else if i == 15 {
            assert(keys[i] == "PageDown"@);
        } else if i == 16 {
            assert(keys[i] == "F1"@);
        } else if i == 17 {
            assert(keys[i] == "F2"@);
        } else if i == 18 {
            assert(keys[i] == "F3"@);
        } else if i == 19 {
            assert(keys[i] == "F4"@);
        } else if i == 20 {
            assert(keys[i] == "F5"@);
        } else if i == 21 {
            assert(keys[i] == "F6"@);
        } else if i == 22 {
            assert(keys[i] == "F7"@);
        } else if i == 23 {
            assert(keys[i] == "F8"@);
        } else if i == 24 {
            assert(keys[i] == "F9"@);
        } else if i == 25 {
            assert(keys[i] == "F10"@);
        } else if i == 26 {
            assert(keys[i] == "F11"@);
        } else if i == 27 {
            assert(keys[i] == "F12"@);
        } else if i == 28 {
            assert(keys[i] == "space"@);
        } else if i == 29 {
            assert(keys[i] == "Henkan"@);
        } else if i == 30 {
            assert(keys[i] == "Muhenkan"@);
        } else if i == 31 {
            assert(keys[i] == "Hiragana_Katakana"@);
        }
    }
}

pub open spec fn tokens_error(ts: Seq<Seq<char>>) -> Option<ConfigErrorV>
    decreases ts.len(),
{
    if ts.len() == 0 {
        None
    } else {
        or_error(token_error(ts[0]), tokens_error(ts.drop_first()))
    }
}

pub open spec fn outputs_error(os: Seq<Seq<char>>) -> Option<ConfigErrorV>
    decreases os.len(),
{
    if os.len() == 0 {
        None
    } else {
        or_error(tokens_error(spec_split_ws(os[0])), outputs_error(os.drop_first()))
    }
}

pub open spec fn table_values(t: Table) -> Seq<Seq<char>> {
    Seq::new(t.len(), |i: int| t[i].1)
}

pub open spec fn tables_error(ts: Seq<(Seq<char>, Table)>) -> Option<ConfigErrorV>
    decreases ts.len(),
{
    if ts.len() == 0 {
        None
    } else {
        or_error(outputs_error(table_values(ts[0].1)), tables_error(ts.drop_first()))
    }
}

pub open spec fn aliases_error(al: Seq<(Seq<char>, Seq<Seq<char>>)>) -> Option<ConfigErrorV>
    decreases al.len(),
{
    if al.len() == 0 {
        None
    } else {
        or_error(tokens_error(al[0].1), aliases_error(al.drop_first()))
    }
}

pub open spec fn chord_outputs(cs: Seq<ChordRuleV>) -> Seq<Seq<char>> {
    Seq::new(cs.len(), |i: int| cs[i].output)
}

pub open spec fn direct_outputs(ds: Seq<DirectRuleV>) -> Seq<Seq<char>> {
    Seq::new(ds.len(), |i: int| ds[i].output)
}

/// The first unknown `!` key name among all outputs, in the order: chords,
/// direct rules, base layer, prefix, postfix and modified layers, aliases.
pub open spec fn function_key_error(l: LayoutV) -> Option<ConfigErrorV> {
    or_error(
        outputs_error(chord_outputs(l.chords)),
        or_error(
            outputs_error(direct_outputs(l.directs)),
            or_error(
                outputs_error(table_values(l.base_layer)),
                or_error(
                    tables_error(l.prefix_layers),
                    or_error(
                        tables_error(l.postfix_layers),
                        or_error(tables_error(l.modified_layers), aliases_error(l.aliases)),
                    ),
                ),
            ),
        ),
    )
}

pub open spec fn modifier_tap_error_from(ms: Seq<ModifierDefV>, i: int) -> Option<ConfigErrorV>
    decreases ms.len() - i,
{
    if i < 0 || i >= ms.len() {
        None
    } else {
        let m = ms[i];
        if m.tap_action == TapAction::Output && m.tap_output is None {
            Some(ConfigErrorV::MissingField("modifier '"@ + m.id + "': tap_action = \"output\" requires a tap_output field"@))
        } else if m.tap_output is Some && m.tap_action != TapAction::Output {
            Some(ConfigErrorV::GridParse("modifier '"@ + m.id + "': tap_output is set but tap_action is not \"output\"; remove tap_output or set tap_action = \"output\""@))
        } else {
            modifier_tap_error_from(ms, i + 1)
        }
    }
}

/// Tap settings that cannot take effect: `output` without `tap_output` (or the
/// reverse) on a modifier, `base_kana` or `output` on the direct trigger.
pub open spec fn tap_output_error(l: LayoutV) -> Option<ConfigErrorV> {
    or_error(
        modifier_tap_error_from(l.modifiers, 0),
        match l.direct_trigger {
            Some(dt) => if dt.tap_action == TapAction::BaseKana {
                Some(ConfigErrorV::GridParse("direct_trigger: tap_action = BaseKana is not supported; use \"passthrough\" or \"none\""@))
            } else if dt.tap_action == TapAction::Output {
                Some(ConfigErrorV::GridParse("direct_trigger: tap_action = Output is not supported; use \"passthrough\" or \"none\""@))
            } else {
                None
            },
            None => None,
        },
    )
}

pub open spec fn spec_validate(l: LayoutV) -> Option<ConfigErrorV> {
    or_error(direct_conflict_from(l.directs, 0), or_error(function_key_error(l), tap_output_error(l)))
}

/// The compiled layout of a file, or the first error found.
pub open spec fn spec_from_file(f: LayoutFile) -> Result<LayoutV, ConfigErrorV> {
    match spec_layers(f.layer@, 0, (Seq::empty(), Seq::empty(), Seq::empty(), Seq::empty())) {
        Err(e) => Err(e),
        Ok(t) => match spec_aliases(f.alias@, 0, 0, Seq::empty()) {
            Err(e) => Err(e),
            Ok(al) => {
                let l = LayoutV {
                    meta: f.meta@,
                    settings: f.settings,
                    modifiers: f.modifier.deep_view(),
                    direct_trigger: opt_trigger_view(f.direct_trigger),
                    base_layer: t.0,
                    prefix_layers: t.1,
                    postfix_layers: t.2,
                    modified_layers: t.3,
                    chords: f.chord.deep_view(),
                    directs: f.direct.deep_view(),
                    aliases: al,
                };
                match spec_validate(l) {
                    Some(e) => Err(e),
                    None => Ok(l),
                }
            },
        },
    }
}

fn check_token(t: &str) -> (r: Result<(), ConfigError>)
    ensures
        match token_error(t@) {
            Some(e) => r matches Err(er) && er@ == e,
            None => r is Ok,
        },
{
    let cs = chars_of(t);
    let n = cs.len();
    let mut p: usize = 0;
    assert(t@.subrange(0, n as int) =~= t@);
    while n - p >= 2 && cs[p + 1] == '-' && (cs[p] == 'S' || cs[p] == 'C' || cs[p] == 'A' || cs[p]
        == 'M')
        invariant
            p <= n,
            n == t@.len(),
            cs@ == t@,
            strip_mods(t@) == strip_mods(t@.subrange(p as int, n as int)),
        decreases n - p,
    {
        assert(t@.subrange(p as int, n as int).subrange(2, (n - p) as int) =~= t@.subrange(
            p + 2,
            n as int,
        ));
        p = p + 2;
    }
    let ghost u = t@.subrange(p as int, n as int);
    assert(strip_mods(u) == u);
    if p < n && cs[p] == '!' {
        let name = sub_string(t, p + 1, n);
        assert(name@ =~= u.drop_first());
        if !valid_function_key(name.as_str()) {
            let msg = String::from_str("unknown function key '!").concat(name.as_str()).concat(
                "'; see the layout documentation for valid names",
            );
            return Err(ConfigError::GridParse(msg));
        }
    }
    Ok(())
}

fn check_tokens(ts: &Vec<String>) -> (r: Result<(), ConfigError>)
    ensures
        match tokens_error(strs(ts@)) {
            Some(e) => r matches Err(er) && er@ == e,
            None => r is Ok,
        },
{
    let mut i: usize = 0;
    assert(strs(ts@).skip(0) =~= strs(ts@));
    while i < ts.len()
        invariant
            i <= ts.len(),
            tokens_error(strs(ts@)) == tokens_error(strs(ts@).skip(i as int)),
        decreases ts.len() - i,
    {
        assert(strs(ts@).skip(i as int).drop_first() =~= strs(ts@).skip(i + 1));
        match check_token(ts[i].as_str()) {
            Ok(()) => {},
            Err(e) => return Err(e),
        }
        i = i + 1;
    }
    Ok(())
}

fn check_output(o: &str) -> (r: Result<(), ConfigError>)
    ensures
        match tokens_error(spec_split_ws(o@)) {
            Some(e) => r matches Err(er) && er@ == e,
            None => r is Ok,
        },
{
    let ts = split_ws(o);
    assert(ts.deep_view() =~= strs(ts@));
    check_tokens(&ts)
}

fn check_table(m: &StrMap) -> (r: Result<(), ConfigError>)
    ensures
        match outputs_error(table_values(m@)) {
            Some(e) => r matches Err(er) && er@ == e,
            None => r is Ok,
        },
{
    let mut i: usize = 0;
    assert(table_values(m@).skip(0) =~= table_values(m@));
    while i < m.entries.len()
        invariant
            i <= m.entries.len(),
            outputs_error(table_values(m@)) == outputs_error(table_values(m@).skip(i as int)),
        decreases m.entries.len() - i,
    {
        assert(table_values(m@).skip(i as int).drop_first() =~= table_values(m@).skip(i + 1));
        match check_output(m.entries[i].1.as_str()) {
            Ok(()) => {},
            Err(e) => return Err(e),
        }
        i = i + 1;
    }
    Ok(())
}

fn check_tables(ts: &Vec<(String, StrMap)>) -> (r: Result<(), ConfigError>)
    ensures
        match tables_error(tables_view(ts@)) {
            Some(e) => r matches Err(er) && er@ == e,
            None => r is Ok,
        },
{
    let mut i: usize = 0;
    assert(tables_view(ts@).skip(0) =~= tables_view(ts@));
    while i < ts.len()
        invariant
            i <= ts.len(),
            tables_error(tables_view(ts@)) == tables_error(tables_view(ts@).skip(i as int)),
        decreases ts.len() - i,
    {
        assert(tables_view(ts@).skip(i as int).drop_first() =~= tables_view(ts@).skip(i + 1));
        match check_table(&ts[i].1) {
            Ok(()) => {},
            Err(e) => return Err(e),
        }
        i = i + 1;
    }
    Ok(())
}

impl Layout {
    /// Compile a layout file: parse every layer grid, flatten the alias
    /// tables, then validate the rules.
    pub fn from_file(file: &LayoutFile) -> (r: Result<Self, ConfigError>)
        ensures
            match spec_from_file(*file) {
                Ok(l) => r matches Ok(x) && x@ == l,
                Err(e) => r matches Err(er) && er@ == e,
            },
    {
        let (base_layer, prefix_layers, postfix_layers, modified_layers) = match compile_layers(&file.layer) {
            Ok(t) => t,
            Err(e) => return Err(e),
        };
        let aliases = match compile_aliases(&file.alias) {
            Ok(a) => a,
            Err(e) => return Err(e),
        };
        let direct_trigger = match &file.direct_trigger {
            Some(dt) => Some(dt.clone()),
            None => None,
        };
        let layout = Layout {
            meta: file.meta.clone(),
            settings: file.settings,
            modifiers: clone_modifiers(&file.modifier),
            direct_trigger,
            base_layer,
            prefix_layers,
            postfix_layers,
            modified_layers,
            chords: clone_chords(&file.chord),
            directs: clone_directs(&file.direct),
            aliases,
        };
        match layout.validate() {
            Ok(()) => Ok(layout),
            Err(e) => Err(e),
        }
    }

    fn validate(&self) -> (r: Result<(), ConfigError>)
        ensures
            match spec_validate(self@) {
                Some(e) => r matches Err(er) && er@ == e,
                None => r is Ok,
            },
    {
        match self.check_direct_conflicts() {
            Ok(()) => {},
            Err(e) => return Err(e),
        }
        match self.check_function_key_names() {
            Ok(()) => {},
            Err(e) => return Err(e),
        }
        self.check_tap_output()
    }

    fn check_direct_conflicts(&self) -> (r: Result<(), ConfigError>)
        ensures
            match direct_conflict_from(self@.directs, 0) {
                Some(e) => r matches Err(er) && er@ == e,
                None => r is Ok,
            },
    {
        let ghost ds = self@.directs;
        let mut j: usize = 0;
        while j < self.directs.len()
            invariant
                j <= self.directs.len(),
                ds == self@.directs,
                ds.len() == self.directs@.len(),
                direct_conflict_from(ds, 0) == direct_conflict_from(ds, j as int),
            decreases self.directs.len() - j,
        {
            let found = self.first_sequence(j);
            match found {
                Some(i) => {
                    if !(self.directs[i].output == self.directs[j].output) {
                        let msg = String::from_str("duplicate [[direct]] sequence ").concat(
                            debug_strings(&self.directs[j].sequence).as_str(),
                        ).concat(" with different outputs: '").concat(
                            self.directs[i].output.as_str(),
                        ).concat("' vs '").concat(self.directs[j].output.as_str()).concat("'");
                        return Err(ConfigError::Conflict(msg));
                    }
                },
                None => {},
            }
            j = j + 1;
        }
        Ok(())
    }

    fn first_sequence(&self, j: usize) -> (r: Option<usize>)
        requires
            j < self.directs.len(),
        ensures
            match r {
                Some(i) => i < j && first_sequence_from(self@.directs, self@.directs[j as int].sequence, 0, j as int) == Some(i as int),
                None => first_sequence_from(self@.directs, self@.directs[j as int].sequence, 0, j as int) is None,
            },
    {
        let ghost ds = self@.directs;
        let mut i: usize = 0;
        while i < j
            invariant
                i <= j < self.directs.len(),
                ds == self@.directs,
                ds.len() == self.directs@.len(),
                first_sequence_from(ds, ds[j as int].sequence, 0, j as int) == first_sequence_from(
                    ds,
                    ds[j as int].sequence,
                    i as int,
                    j as int,
                ),
            decreases j - i,
        {
            if strings_eq(&self.directs[i].sequence, &self.directs[j].sequence) {
                assert(ds[i as int].sequence == ds[j as int].sequence);
                return Some(i);
            }
            i = i + 1;
        }
        None
    }

    fn check_function_key_names(&self) -> (r: Result<(), ConfigError>)
        ensures
            match function_key_error(self@) {
                Some(e) => r matches Err(er) && er@ == e,
                None => r is Ok,
            },
    {
        let ghost cv = chord_outputs(self@.chords);
        let mut i: usize = 0;
        assert(cv.skip(0) =~= cv);
        while i < self.chords.len()
            invariant
                i <= self.chords.len(),
                cv == chord_outputs(self@.chords),
                outputs_error(cv) == outputs_error(cv.skip(i as int)),
            decreases self.chords.len() - i,
        {
            assert(cv.skip(i as int).drop_first() =~= cv.skip(i + 1));
            assert(cv.skip(i as int)[0] == self.chords@[i as int].output@);
            match check_output(self.chords[i].output.as_str()) {
                Ok(()) => {},
                Err(e) => return Err(e),
            }
            i = i + 1;
        }
        assert(cv.skip(i as int) =~= Seq::<Seq<char>>::empty());
        let ghost dv = direct_outputs(self@.directs);
        let mut i: usize = 0;
        assert(dv.skip(0) =~= dv);
        while i < self.directs.len()
            invariant
                i <= self.directs.len(),
                dv == direct_outputs(self@.directs),
                outputs_error(chord_outputs(self@.chords)) is None,
                outputs_error(dv) == outputs_error(dv.skip(i as int)),
            decreases self.directs.len() - i,
        {
            assert(dv.skip(i as int).drop_first() =~= dv.skip(i + 1));
            assert(dv.skip(i as int)[0] == self.directs@[i as int].output@);
            match check_output(self.directs[i].output.as_str()) {
                Ok(()) => {},
                Err(e) => return Err(e),
            }
            i = i + 1;
        }
        assert(dv.skip(i as int) =~= Seq::<Seq<char>>::empty());
        match check_table(&self.base_layer) {
            Ok(()) => {},
            Err(e) => return Err(e),
        }
        match check_tables(&self.prefix_layers) {
            Ok(()) => {},
            Err(e) => return Err(e),
        }
        match check_tables(&self.postfix_layers) {
            Ok(()) => {},
            Err(e) => return Err(e),
        }
        match check_tables(&self.modified_layers) {
            Ok(()) => {},
            Err(e) => return Err(e),
        }
        let ghost av = self@.aliases;
        let mut i: usize = 0;
        assert(av.skip(0) =~= av);
        while i < self.aliases.entries.len()
            invariant
                i <= self.aliases.entries.len(),
                av == self@.aliases,
                outputs_error(chord_outputs(self@.chords)) is None,
                outputs_error(direct_outputs(self@.directs)) is None,
                outputs_error(table_values(self@.base_layer)) is None,
                tables_error(self@.prefix_layers) is None,
                tables_error(self@.postfix_layers) is None,
                tables_error(self@.modified_layers) is None,
                aliases_error(av) == aliases_error(av.skip(i as int)),
            decreases self.aliases.entries.len() - i,
        {
            assert(av.skip(i as int).drop_first() =~= av.skip(i + 1));
            assert(av.skip(i as int)[0] == av[i as int]);
            assert(av[i as int].1 == strs(self.aliases.entries@[i as int].1@));
            match check_tokens(&self.aliases.entries[i].1) {
                Ok(()) => {},
                Err(e) => return Err(e),
            }
            i = i + 1;
        }
        Ok(())
    }

    fn check_tap_output(&self) -> (r: Result<(), ConfigError>)
        ensures
            match tap_output_error(self@) {
                Some(e) => r matches Err(er) && er@ == e,
                None => r is Ok,
            },
    {
        let mut i: usize = 0;
        while i < self.modifiers.len()
            invariant
                i <= self.modifiers.len(),
                modifier_tap_error_from(self@.modifiers, 0) == modifier_tap_error_from(self@.modifiers, i as int),
            decreases self.modifiers.len() - i,
        {
            let m = &self.modifiers[i];
            assert(self@.modifiers[i as int] == m@);
            if m.tap_action == TapAction::Output && m.tap_output.is_none() {
                let msg = String::from_str("modifier '").concat(m.id.as_str()).concat(
                    "': tap_action = \"output\" requires a tap_output field",
                );
                return Err(ConfigError::MissingField(msg));
            }
            if m.tap_output.is_some() && m.tap_action != TapAction::Output {
                let msg = String::from_str("modifier '").concat(m.id.as_str()).concat(
                    "': tap_output is set but tap_action is not \"output\"; remove tap_output or set tap_action = \"output\"",
                );
                return Err(ConfigError::GridParse(msg));
            }
            i = i + 1;
        }
        match &self.direct_trigger {
            Some(dt) => {
                if dt.tap_action == TapAction::BaseKana {
                    return Err(ConfigError::GridParse(String::from_str(
                        "direct_trigger: tap_action = BaseKana is not supported; use \"passthrough\" or \"none\"",
                    )));
                }
                if dt.tap_action == TapAction::Output {
                    return Err(ConfigError::GridParse(String::from_str(
                        "direct_trigger: tap_action = Output is not supported; use \"passthrough\" or \"none\"",
                    )));
                }
            },
            None => {},
        }
        Ok(())
    }
}

} // verus!

verus! {

// ── Key overlaps ─────────────────────────────────────────────────────────────

/// The modifier keys of a layout, in order.
pub open spec fn modifier_keys(l: LayoutV) -> Seq<Seq<char>> {
    Seq::new(l.modifiers.len(), |i: int| l.modifiers[i].key)
}

/// The keys `keys[..n]` that are also modifier keys, in order.
pub open spec fn trigger_overlaps_upto(l: LayoutV, keys: Seq<Seq<char>>, n: int) -> Seq<Seq<char>>
    decreases n,
{
    if n <= 0 || n > keys.len() {
        Seq::empty()
    } else {
        let r = trigger_overlaps_upto(l, keys, n - 1);
        if modifier_keys(l).contains(keys[n - 1]) {
            r.push(keys[n - 1])
        } else {
            r
        }
    }
}

/// Direct trigger keys that are also modifier keys.
pub open spec fn trigger_overlaps(l: LayoutV) -> Seq<Seq<char>> {
    match l.direct_trigger {
        Some(dt) => trigger_overlaps_upto(l, dt.keys, dt.keys.len() as int),
        None => Seq::empty(),
    }
}

/// The distinct keys of the modifiers `..n` that have a base-layer entry,
/// in the order they are first defined.
pub open spec fn base_overlaps_upto(l: LayoutV, n: int) -> Seq<Seq<char>>
    decreases n,
{
    if n <= 0 || n > l.modifiers.len() {
        Seq::empty()
    } else {
        let r = base_overlaps_upto(l, n - 1);
        let k = l.modifiers[n - 1].key;
        if assoc_get(l.base_layer, k) is Some && !r.contains(k) {
            r.push(k)
        } else {
            r
        }
    }
}

/// Modifier keys that also have a base-layer entry, which can then never be reached.
pub open spec fn base_overlaps(l: LayoutV) -> Seq<Seq<char>> {
    base_overlaps_upto(l, l.modifiers.len() as int)
}

impl Layout {
    /// Keys defined twice over, which a layout author should hear about
    /// (they are allowed): direct trigger keys that are also modifier keys,
    /// and modifier keys that also have a base-layer entry.
    pub fn key_overlaps(&self) -> (r: (Vec<String>, Vec<String>))
        ensures
            r.0.deep_view() == trigger_overlaps(self@),
            r.1.deep_view() == base_overlaps(self@),
    {
        let ghost l = self@;
        let mut mods: Vec<String> = Vec::new();
        let mut i: usize = 0;
        while i < self.modifiers.len()
            invariant
                i <= self.modifiers.len(),
                l == self@,
                mods@.len() == i,
                forall|j: int| 0 <= j < i ==> (#[trigger] mods@[j])@ == l.modifiers[j].key,
            decreases self.modifiers.len() - i,
        {
            assert(l.modifiers[i as int] == self.modifiers@[i as int]@);
            mods.push(self.modifiers[i].key.clone());
            i = i + 1;
        }
        assert(mods.deep_view() =~= modifier_keys(l));
        let mut triggers: Vec<String> = Vec::new();
        match &self.direct_trigger {
            Some(dt) => {
                let ghost keys = strs(dt.keys@);
                let mut k: usize = 0;
                assert(triggers.deep_view() =~= Seq::<Seq<char>>::empty());
                while k < dt.keys.len()
                    invariant
                        k <= dt.keys.len(),
                        keys == strs(dt.keys@),
                        mods.deep_view() == modifier_keys(l),
                        triggers.deep_view() == trigger_overlaps_upto(l, keys, k as int),
                    decreases dt.keys.len() - k,
                {
                    assert(keys[k as int] == dt.keys@[k as int]@);
                    if crate::statemachine::strings_contain(&mods, dt.keys[k].as_str()) {
                        let ghost before = triggers.deep_view();
                        triggers.push(dt.keys[k].clone());
                        assert(triggers.deep_view() =~= before.push(keys[k as int]));
                    }
                    k = k + 1;
                }
            },
            None => {
                assert(triggers.deep_view() =~= Seq::<Seq<char>>::empty());
            },
        }
        let mut base: Vec<String> = Vec::new();
        let mut m: usize = 0;
        assert(base.deep_view() =~= Seq::<Seq<char>>::empty());
        while m < self.modifiers.len()
            invariant
                m <= self.modifiers.len(),
                l == self@,
                base.deep_view() == base_overlaps_upto(l, m as int),
            decreases self.modifiers.len() - m,
        {
            let key = &self.modifiers[m].key;
            assert(l.modifiers[m as int].key == key@);
            if self.base_layer.contains_key(key.as_str()) && !crate::statemachine::strings_contain(&base, key.as_str()) {
                let ghost before = base.deep_view();
                base.push(key.clone());
                assert(base.deep_view() =~= before.push(key@));
            }
            m = m + 1;
        }
        (triggers, base)
    }
}

} // verus!
