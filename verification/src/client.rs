//! The Mozc client's own logic: naming keys the way Mozc does, finding the
//! server's socket, and turning each operation into the request to send and
//! each response into the output the engine uses. The socket I/O itself is
//! done by the caller with the requests built here.
use vstd::prelude::*;
use crate::codec::DecodeError;
use crate::config::grid_lines;
use crate::proto::{
    Candidate, CandidateV, DecodedOutput, DecodedOutputV, EncodedInput, decode_response, spec_decode_response,
    input_create_session, input_turn_on_ime, turn_on_ime_bytes, COMPOSITION_HIRAGANA, input_delete_session, input_send_kana, input_send_special,
    input_send_special_with_mods, input_send_key_code_with_mods, input_submit, input_revert,
    input_select_candidate, spec_input, spec_key_event, spec_session_command, spec_mods, int32_varint,
    create_session_bytes, delete_session_bytes, send_kana_bytes, send_special_bytes, send_special_mods_bytes,
    send_key_code_bytes, session_command_input_bytes,
    CMD_CREATE_SESSION, CMD_DELETE_SESSION, CMD_SEND_KEY, CMD_SEND_COMMAND, SESSION_SUBMIT, SESSION_REVERT,
    SESSION_SELECT_CANDIDATE, STYLE_AS_IS, STYLE_FOLLOW_MODE, SPECIAL_SPACE, SPECIAL_ENTER, SPECIAL_LEFT,
    SPECIAL_RIGHT, SPECIAL_UP, SPECIAL_DOWN, SPECIAL_ESCAPE, SPECIAL_DEL, SPECIAL_BACKSPACE, SPECIAL_HENKAN,
    SPECIAL_KANA, SPECIAL_HOME, SPECIAL_END, SPECIAL_TAB, SPECIAL_PAGE_UP, SPECIAL_PAGE_DOWN, SPECIAL_INSERT,
};
use crate::text::{chars_of, str_eq, sub_string, split_ws, spec_split_ws, has_prefix, decimal_string, spec_decimal};
use vstd::string::StringSliceAdditionalSpecFns;

verus! {

/// Largest response accepted from the server (1 MiB).
pub const MAX_RESPONSE_BYTES: usize = 1048576;

// ── Output ───────────────────────────────────────────────────────────────────

/// A decoded Mozc response as the engine uses it.
#[derive(Debug, Clone)]
pub struct MozcOutput {
    /// Current preedit (text being composed, not yet committed).
    pub preedit: String,
    /// Text committed by Mozc (e.g. after conversion and selection).
    pub result: Option<String>,
    /// Whether a preedit segment is highlighted: conversion is under way.
    pub is_converting: bool,
    /// Mozc's composition mode.
    pub mode: i32,
    /// Whether Mozc consumed the key event.
    pub consumed: bool,
    /// Candidates of the current window page.
    pub candidates: Vec<Candidate>,
    /// Focused candidate during conversion.
    pub focused_index: Option<u32>,
    /// Number of candidates over all pages.
    pub candidate_size: u32,
}

pub struct MozcOutputV {
    pub preedit: Seq<char>,
    pub result: Option<Seq<char>>,
    pub is_converting: bool,
    pub mode: i32,
    pub consumed: bool,
    pub candidates: Seq<CandidateV>,
    pub focused_index: Option<u32>,
    pub candidate_size: u32,
}

impl View for MozcOutput {
    type V = MozcOutputV;

    open spec fn view(&self) -> MozcOutputV {
        MozcOutputV {
            preedit: self.preedit@,
            result: match self.result {
                Some(r) => Some(r@),
                None => None,
            },
            is_converting: self.is_converting,
            mode: self.mode,
            consumed: self.consumed,
            candidates: self.candidates.deep_view(),
            focused_index: self.focused_index,
            candidate_size: self.candidate_size,
        }
    }
}

impl DeepView for MozcOutput {
    type V = MozcOutputV;

    open spec fn deep_view(&self) -> MozcOutputV {
        self@
    }
}

impl Default for MozcOutput {
    fn default() -> (o: Self)
        ensures
            o@ == (MozcOutputV {
                preedit: Seq::empty(),
                result: None,
                is_converting: false,
                mode: 0,
                consumed: false,
                candidates: Seq::empty(),
                focused_index: None,
                candidate_size: 0,
            }),
    {
        let o = MozcOutput {
            preedit: String::new(),
            result: None,
            is_converting: false,
            mode: 0,
            consumed: false,
            candidates: Vec::new(),
            focused_index: None,
            candidate_size: 0,
        };
        assert(o.candidates.deep_view() =~= Seq::<CandidateV>::empty());
        o
    }
}

/// The output a decoded response gives.
pub open spec fn output_of(d: DecodedOutputV) -> MozcOutputV {
    MozcOutputV {
        preedit: d.preedit_text,
        result: d.result_value,
        is_converting: d.preedit_has_highlight,
        mode: d.mode,
        consumed: d.consumed,
        candidates: d.candidates,
        focused_index: d.focused_index,
        candidate_size: d.candidate_size,
    }
}

impl MozcOutput {
    pub fn from_decoded(d: DecodedOutput) -> (o: Self)
        ensures
            o@ == output_of(d@),
    {
        MozcOutput {
            preedit: d.preedit_text,
            result: d.result_value,
            is_converting: d.preedit_has_highlight,
            mode: d.mode,
            consumed: d.consumed,
            candidates: d.candidates,
            focused_index: d.focused_index,
            candidate_size: d.candidate_size,
        }
    }
}

// ── Errors ───────────────────────────────────────────────────────────────────

#[derive(Debug)]
pub enum MozcError {
    /// The socket I/O failed; holds the system's description.
    Io(String),
    Decode(DecodeError),
    Protocol(String),
    NotConnected,
}

pub enum MozcErrorV {
    Io(Seq<char>),
    Decode(Seq<char>),
    Protocol(Seq<char>),
    NotConnected,
}

impl View for MozcError {
    type V = MozcErrorV;

    open spec fn view(&self) -> MozcErrorV {
        match self {
            MozcError::Io(s) => MozcErrorV::Io(s@),
            MozcError::Decode(e) => MozcErrorV::Decode(e.0@),
            MozcError::Protocol(s) => MozcErrorV::Protocol(s@),
            MozcError::NotConnected => MozcErrorV::NotConnected,
        }
    }
}

pub open spec fn mozc_error_message(e: MozcErrorV) -> Seq<char> {
    match e {
        MozcErrorV::Io(s) => "I/O error: "@ + s,
        MozcErrorV::Decode(s) => "decode error: "@ + ("protobuf decode error: "@ + s),
        MozcErrorV::Protocol(s) => "protocol error: "@ + s,
        MozcErrorV::NotConnected => "no active Mozc session"@,
    }
}

impl MozcError {
    /// The human-readable description of the error.
    pub fn message(&self) -> (s: String)
        ensures
            s@ == mozc_error_message(self@),
    {
        match self {
            MozcError::Io(m) => String::from_str("I/O error: ").concat(m.as_str()),
            MozcError::Decode(e) => {
                let inner = e.message();
                String::from_str("decode error: ").concat(inner.as_str())
            },
            MozcError::Protocol(m) => String::from_str("protocol error: ").concat(m.as_str()),
            MozcError::NotConnected => String::from_str("no active Mozc session"),
        }
    }
}

// ── Key names ────────────────────────────────────────────────────────────────

pub open spec fn is_digit(c: char) -> bool {
    '0' <= c <= '9'
}

/// The decimal value of a string of digits.
pub open spec fn digits_value(d: Seq<char>) -> int
    decreases d.len(),
{
    if d.len() == 0 {
        0
    } else {
        digits_value(d.drop_last()) * 10 + (d.last() as int - '0' as int)
    }
}

/// The function key number 1 to 12 that `s` writes in decimal, with an
/// optional `+` sign.
pub open spec fn function_number(s: Seq<char>) -> Option<int> {
    let d = without_plus(s);
    if d.len() > 0 && all_digits(d) && 1 <= digits_value(d) <= 12 {
        Some(digits_value(d))
    } else {
        None
    }
}

/// `s` without a leading `+`.
pub open spec fn without_plus(s: Seq<char>) -> Seq<char> {
    if s.len() > 0 && s[0] == '+' {
        s.drop_first()
    } else {
        s
    }
}

pub open spec fn all_digits(d: Seq<char>) -> bool {
    forall|i: int| 0 <= i < d.len() ==> is_digit(#[trigger] d[i])
}

/// Mozc's special key for an XKB key name.
pub open spec fn spec_special_key(name: Seq<char>) -> Option<i32> {
    if name == "Return"@ {
        Some(SPECIAL_ENTER)
    } else if name == "Tab"@ {
        Some(SPECIAL_TAB)
    } else if name == "Escape"@ {
        Some(SPECIAL_ESCAPE)
    } else if name == "BackSpace"@ {
        Some(SPECIAL_BACKSPACE)
    } else if name == "Delete"@ {
        Some(SPECIAL_DEL)
    } else if name == "Insert"@ {
        Some(SPECIAL_INSERT)
    } else if name == "Home"@ {
        Some(SPECIAL_HOME)
    } else if name == "End"@ {
        Some(SPECIAL_END)
    } else if name == "Up"@ {
        Some(SPECIAL_UP)
    } else if name == "Down"@ {
        Some(SPECIAL_DOWN)
    } else if name == "Left"@ {
        Some(SPECIAL_LEFT)
    } else if name == "Right"@ {
        Some(SPECIAL_RIGHT)
    } else if name == "Prior"@ || name == "PageUp"@ {
        Some(SPECIAL_PAGE_UP)
    } else if name == "Next"@ || name == "PageDown"@ {
        Some(SPECIAL_PAGE_DOWN)
    } else if name == "space"@ {
        Some(SPECIAL_SPACE)
    } else if name == "Henkan"@ {
        Some(SPECIAL_HENKAN)
    } else if name == "Hiragana_Katakana"@ {
        Some(SPECIAL_KANA)
    } else if name.len() > 0 && name[0] == 'F' {
        match function_number(name.drop_first()) {
            Some(n) => Some((18 + n) as i32),
            None => None,
        }
    } else {
        None
    }
}

/// The number of function key `F<n>`, for `n` from 1 to 12.
fn function_key_number(name: &str) -> (r: Option<i32>)
    requires
        name@.len() > 0,
        name@[0] == 'F',
    ensures
        match function_number(name@.drop_first()) {
            Some(n) => r == Some((18 + n) as i32),
            None => r is None,
        },
{
    let cs = chars_of(name);
    let n = cs.len();
    let ghost s = name@.drop_first();
    let mut start: usize = 1;
    if start < n && cs[start] == '+' {
        start = 2;
    }
    let ghost d = name@.subrange(start as int, n as int);
    assert(d =~= without_plus(s));
    if start >= n {
        return None;
    }
    let mut p: usize = start;
    let mut v: u64 = 0;
    let mut big = false;
    assert(d.take(0) =~= Seq::<char>::empty());
    while p < n
        invariant
            start <= p <= n,
            n == name@.len(),
            cs@ == name@,
            d == name@.subrange(start as int, n as int),
            s == name@.drop_first(),
            d == without_plus(s),
            d.len() > 0,
            forall|i: int| 0 <= i < p - start ==> is_digit(#[trigger] d[i]),
            digits_value(d.take(p - start)) >= 0,
            !big ==> v == digits_value(d.take(p - start)) && v <= 12,
            big ==> digits_value(d.take(p - start)) > 12,
        decreases n - p,
    {
        let c = cs[p];
        assert(d[p - start] == c);
        if !('0' <= c && c <= '9') {
            proof {
                assert(!is_digit(d[p - start]));
                assert(!all_digits(d));
            }
            return None;
        }
        let ghost t = d.take(p - start + 1);
        assert(t.drop_last() =~= d.take(p - start));
        assert(t.last() == c);
        let dv = (c as u32 - '0' as u32) as u64;
        if !big {
            v = v * 10 + dv;
            if v > 12 {
                big = true;
            }
        }
        p = p + 1;
    }
    assert(d.take(p - start) =~= d);
    if big || v < 1 {
        return None;
    }
    Some(18 + v as i32)
}

/// Mozc's special key for an XKB key name, if it has one.
pub fn xkb_name_to_mozc_special(name: &str) -> (r: Option<i32>)
    ensures
        r == spec_special_key(name@),
{
    if str_eq(name, "Return") {
        Some(SPECIAL_ENTER)
    } else if str_eq(name, "Tab") {
        Some(SPECIAL_TAB)
    } else if str_eq(name, "Escape") {
        Some(SPECIAL_ESCAPE)
    } else if str_eq(name, "BackSpace") {
        Some(SPECIAL_BACKSPACE)
    } else if str_eq(name, "Delete") {
        Some(SPECIAL_DEL)
    } else if str_eq(name, "Insert") {
        Some(SPECIAL_INSERT)
    } else if str_eq(name, "Home") {
        Some(SPECIAL_HOME)
    } else if str_eq(name, "End") {
        Some(SPECIAL_END)
    } else if str_eq(name, "Up") {
        Some(SPECIAL_UP)
    } else if str_eq(name, "Down") {
        Some(SPECIAL_DOWN)
    } else if str_eq(name, "Left") {
        Some(SPECIAL_LEFT)
    } else if str_eq(name, "Right") {
        Some(SPECIAL_RIGHT)
    } else if str_eq(name, "Prior") || str_eq(name, "PageUp") {
        Some(SPECIAL_PAGE_UP)
    } else if str_eq(name, "Next") || str_eq(name, "PageDown") {
        Some(SPECIAL_PAGE_DOWN)
    } else if str_eq(name, "space") {
        Some(SPECIAL_SPACE)
    } else if str_eq(name, "Henkan") {
        Some(SPECIAL_HENKAN)
    } else if str_eq(name, "Hiragana_Katakana") {
        Some(SPECIAL_KANA)
    } else if name.unicode_len() > 0 && name.get_char(0) == 'F' {
        function_key_number(name)
    } else {
        None
    }
}


/// Other key names have no Mozc special key: a name that is none of Return,
/// Tab, Escape, BackSpace, Delete, Insert, Home, End, Up, Down, Left, Right,
/// Prior, PageUp, Next, PageDown, space, Henkan, Hiragana_Katakana and does
/// not start with `F` maps to nothing.
pub proof fn law_other_key_names(name: Seq<char>)
    requires
        name != "Return"@
            && name != "Tab"@
            && name != "Escape"@
            && name != "BackSpace"@
            && name != "Delete"@
            && name != "Insert"@
            && name != "Home"@
            && name != "End"@
            && name != "Up"@
            && name != "Down"@
            && name != "Left"@
            && name != "Right"@
            && name != "Prior"@
            && name != "PageUp"@
            && name != "Next"@
            && name != "PageDown"@
            && name != "space"@
            && name != "Henkan"@
            && name != "Hiragana_Katakana"@,
        name.len() == 0 || name[0] != 'F',
    ensures
        spec_special_key(name) is None,
{
}

/// The function keys F1 to F12 go to Mozc's function keys in order: F1 is
/// the first (19), and each next key the next value, up to F12 (30).
pub proof fn law_function_key_names(name: Seq<char>)
    ensures
        name == "F1"@ ==> spec_special_key(name) == Some(19i32),
        name == "F2"@ ==> spec_special_key(name) == Some(20i32),
        name == "F3"@ ==> spec_special_key(name) == Some(21i32),
        name == "F4"@ ==> spec_special_key(name) == Some(22i32),
        name == "F5"@ ==> spec_special_key(name) == Some(23i32),
        name == "F6"@ ==> spec_special_key(name) == Some(24i32),
        name == "F7"@ ==> spec_special_key(name) == Some(25i32),
        name == "F8"@ ==> spec_special_key(name) == Some(26i32),
        name == "F9"@ ==> spec_special_key(name) == Some(27i32),
        name == "F10"@ ==> spec_special_key(name) == Some(28i32),
        name == "F11"@ ==> spec_special_key(name) == Some(29i32),
        name == "F12"@ ==> spec_special_key(name) == Some(30i32),
{
    reveal_strlit("Return");
    reveal_strlit("Tab");
    reveal_strlit("Escape");
    reveal_strlit("BackSpace");
    reveal_strlit("Delete");
    reveal_strlit("Insert");
    reveal_strlit("Home");
    reveal_strlit("End");
    reveal_strlit("Up");
    reveal_strlit("Down");
    reveal_strlit("Left");
    reveal_strlit("Right");
    reveal_strlit("Prior");
    reveal_strlit("PageUp");
    reveal_strlit("Next");
    reveal_strlit("PageDown");
    reveal_strlit("space");
    reveal_strlit("Henkan");
    reveal_strlit("Hiragana_Katakana");
    if name == "F1"@ {
        reveal_strlit("F1");
        assert(name.len() == 2 && name[0] == 'F');
        let ds = name.drop_first();
        assert(ds =~= seq!['1']);
        assert(ds.drop_last() =~= Seq::<char>::empty());
        assert(digits_value(ds.drop_last()) == 0);
        assert(ds.last() == '1' && ('1' as int) - ('0' as int) == 1);
        assert(digits_value(ds) == 1);
    }
    if name == "F2"@ {
        reveal_strlit("F2");
        assert(name.len() == 2 && name[0] == 'F');
        let ds = name.drop_first();
        assert(ds =~= seq!['2']);
        assert(ds.drop_last() =~= Seq::<char>::empty());
        assert(digits_value(ds.drop_last()) == 0);
        assert(ds.last() == '2' && ('2' as int) - ('0' as int) == 2);
        assert(digits_value(ds) == 2);
    }
    if name == "F3"@ {
        reveal_strlit("F3");
        assert(name.len() == 2 && name[0] == 'F');
        let ds = name.drop_first();
        assert(ds =~= seq!['3']);
        assert(ds.drop_last() =~= Seq::<char>::empty());
        assert(digits_value(ds.drop_last()) == 0);
        assert(ds.last() == '3' && ('3' as int) - ('0' as int) == 3);
        assert(digits_value(ds) == 3);
    }
    if name == "F4"@ {
        reveal_strlit("F4");
        assert(name.len() == 2 && name[0] == 'F');
        let ds = name.drop_first();
        assert(ds =~= seq!['4']);
        assert(ds.drop_last() =~= Seq::<char>::empty());
        assert(digits_value(ds.drop_last()) == 0);
        assert(ds.last() == '4' && ('4' as int) - ('0' as int) == 4);
        assert(digits_value(ds) == 4);
    }
    if name == "F5"@ {
        reveal_strlit("F5");
        assert(name.len() == 2 && name[0] == 'F');
        let ds = name.drop_first();
        assert(ds =~= seq!['5']);
        assert(ds.drop_last() =~= Seq::<char>::empty());
        assert(digits_value(ds.drop_last()) == 0);
        assert(ds.last() == '5' && ('5' as int) - ('0' as int) == 5);
        assert(digits_value(ds) == 5);
    }
    if name == "F6"@ {
        reveal_strlit("F6");
        assert(name.len() == 2 && name[0] == 'F');
        let ds = name.drop_first();
        assert(ds =~= seq!['6']);
        assert(ds.drop_last() =~= Seq::<char>::empty());
        assert(digits_value(ds.drop_last()) == 0);
        assert(ds.last() == '6' && ('6' as int) - ('0' as int) == 6);
        assert(digits_value(ds) == 6);
    }
    if name == "F7"@ {
        reveal_strlit("F7");
        assert(name.len() == 2 && name[0] == 'F');
        let ds = name.drop_first();
        assert(ds =~= seq!['7']);
        assert(ds.drop_last() =~= Seq::<char>::empty());
        assert(digits_value(ds.drop_last()) == 0);
        assert(ds.last() == '7' && ('7' as int) - ('0' as int) == 7);
        assert(digits_value(ds) == 7);
    }
    if name == "F8"@ {
        reveal_strlit("F8");
        assert(name.len() == 2 && name[0] == 'F');
        let ds = name.drop_first();
        assert(ds =~= seq!['8']);
        assert(ds.drop_last() =~= Seq::<char>::empty());
        assert(digits_value(ds.drop_last()) == 0);
        assert(ds.last() == '8' && ('8' as int) - ('0' as int) == 8);
        assert(digits_value(ds) == 8);
    }
    if name == "F9"@ {
        reveal_strlit("F9");
        assert(name.len() == 2 && name[0] == 'F');
        let ds = name.drop_first();
        assert(ds =~= seq!['9']);
        assert(ds.drop_last() =~= Seq::<char>::empty());
        assert(digits_value(ds.drop_last()) == 0);
        assert(ds.last() == '9' && ('9' as int) - ('0' as int) == 9);
        assert(digits_value(ds) == 9);
    }
    if name == "F10"@ {
        reveal_strlit("F10");
        assert(name.len() == 3 && name[0] == 'F');
        let ds = name.drop_first();
        assert(ds =~= seq!['1', '0']);
        assert(ds.drop_last() =~= seq!['1']);
        assert(ds.drop_last().drop_last() =~= Seq::<char>::empty());
        assert(digits_value(ds.drop_last().drop_last()) == 0);
        assert(ds.drop_last().last() == '1' && ('1' as int) - ('0' as int) == 1);
        assert(digits_value(ds.drop_last()) == 1);
        assert(ds.last() == '0' && ('0' as int) - ('0' as int) == 0);
        assert(digits_value(ds) == 10);
    }
    if name == "F11"@ {
        reveal_strlit("F11");
        assert(name.len() == 3 && name[0] == 'F');
        let ds = name.drop_first();
        assert(ds =~= seq!['1', '1']);
        assert(ds.drop_last() =~= seq!['1']);
        assert(ds.drop_last().drop_last() =~= Seq::<char>::empty());
        assert(digits_value(ds.drop_last().drop_last()) == 0);
        assert(ds.drop_last().last() == '1' && ('1' as int) - ('0' as int) == 1);
        assert(digits_value(ds.drop_last()) == 1);
        assert(ds.last() == '1' && ('1' as int) - ('0' as int) == 1);
        assert(digits_value(ds) == 11);
    }
    if name == "F12"@ {
        reveal_strlit("F12");
        assert(name.len() == 3 && name[0] == 'F');
        let ds = name.drop_first();
        assert(ds =~= seq!['1', '2']);
        assert(ds.drop_last() =~= seq!['1']);
        assert(ds.drop_last().drop_last() =~= Seq::<char>::empty());
        assert(digits_value(ds.drop_last().drop_last()) == 0);
        assert(ds.drop_last().last() == '1' && ('1' as int) - ('0' as int) == 1);
        assert(digits_value(ds.drop_last()) == 1);
        assert(ds.last() == '2' && ('2' as int) - ('0' as int) == 2);
        assert(digits_value(ds) == 12);
    }
}

/// Each XKB key name with a Mozc special key goes to the special key of the
/// same meaning: the arrows keep their direction (Up is up, Down is down,
/// Left is left, Right is right), Prior and PageUp page up, Next and
/// PageDown page down, and the rest name their own key.
pub proof fn law_special_key_names(name: Seq<char>)
    ensures
        name == "Up"@ ==> spec_special_key(name) == Some(SPECIAL_UP),
        name == "Down"@ ==> spec_special_key(name) == Some(SPECIAL_DOWN),
        name == "Left"@ ==> spec_special_key(name) == Some(SPECIAL_LEFT),
        name == "Right"@ ==> spec_special_key(name) == Some(SPECIAL_RIGHT),
        name == "Return"@ ==> spec_special_key(name) == Some(SPECIAL_ENTER),
        name == "Tab"@ ==> spec_special_key(name) == Some(SPECIAL_TAB),
        name == "Escape"@ ==> spec_special_key(name) == Some(SPECIAL_ESCAPE),
        name == "BackSpace"@ ==> spec_special_key(name) == Some(SPECIAL_BACKSPACE),
        name == "Delete"@ ==> spec_special_key(name) == Some(SPECIAL_DEL),
        name == "Insert"@ ==> spec_special_key(name) == Some(SPECIAL_INSERT),
        name == "Home"@ ==> spec_special_key(name) == Some(SPECIAL_HOME),
        name == "End"@ ==> spec_special_key(name) == Some(SPECIAL_END),
        name == "Prior"@ ==> spec_special_key(name) == Some(SPECIAL_PAGE_UP),
        name == "PageUp"@ ==> spec_special_key(name) == Some(SPECIAL_PAGE_UP),
        name == "Next"@ ==> spec_special_key(name) == Some(SPECIAL_PAGE_DOWN),
        name == "PageDown"@ ==> spec_special_key(name) == Some(SPECIAL_PAGE_DOWN),
        name == "space"@ ==> spec_special_key(name) == Some(SPECIAL_SPACE),
        name == "Henkan"@ ==> spec_special_key(name) == Some(SPECIAL_HENKAN),
        name == "Hiragana_Katakana"@ ==> spec_special_key(name) == Some(SPECIAL_KANA),
{
    reveal_strlit("Return");
    reveal_strlit("Tab");
    reveal_strlit("Escape");
    reveal_strlit("BackSpace");
    reveal_strlit("Delete");
    reveal_strlit("Insert");
    reveal_strlit("Home");
    reveal_strlit("End");
    reveal_strlit("Up");
    reveal_strlit("Down");
    reveal_strlit("Left");
    reveal_strlit("Right");
    reveal_strlit("Prior");
    reveal_strlit("PageUp");
    reveal_strlit("Next");
    reveal_strlit("PageDown");
    reveal_strlit("space");
    reveal_strlit("Henkan");
    reveal_strlit("Hiragana_Katakana");
    if name == "Return"@ {
        assert(name.len() == 6 && name[0] == 'R' && name[1] == 'e');
    }
    if name == "Tab"@ {
        assert(name.len() == 3 && name[0] == 'T' && name[1] == 'a');
    }
    if name == "Escape"@ {
        assert(name.len() == 6 && name[0] == 'E' && name[1] == 's');
    }
    if name == "BackSpace"@ {
        assert(name.len() == 9 && name[0] == 'B' && name[1] == 'a');
    }
    if name == "Delete"@ {
        assert(name.len() == 6 && name[0] == 'D' && name[1] == 'e');
    }
    if name == "Insert"@ {
        assert(name.len() == 6 && name[0] == 'I' && name[1] == 'n');
    }
    if name == "Home"@ {
        assert(name.len() == 4 && name[0] == 'H' && name[1] == 'o');
    }
    if name == "End"@ {
        assert(name.len() == 3 && name[0] == 'E' && name[1] == 'n');
    }
    if name == "Up"@ {
        assert(name.len() == 2 && name[0] == 'U' && name[1] == 'p');
    }
    if name == "Down"@ {
        assert(name.len() == 4 && name[0] == 'D' && name[1] == 'o');
    }
    if name == "Left"@ {
        assert(name.len() == 4 && name[0] == 'L' && name[1] == 'e');
    }
    if name == "Right"@ {
        assert(name.len() == 5 && name[0] == 'R' && name[1] == 'i');
    }
    if name == "Prior"@ {
        assert(name.len() == 5 && name[0] == 'P' && name[1] == 'r');
    }
    if name == "PageUp"@ {
        assert(name.len() == 6 && name[0] == 'P' && name[1] == 'a');
    }
    if name == "Next"@ {
        assert(name.len() == 4 && name[0] == 'N' && name[1] == 'e');
    }
    if name == "PageDown"@ {
        assert(name.len() == 8 && name[0] == 'P' && name[1] == 'a');
    }
    if name == "space"@ {
        assert(name.len() == 5 && name[0] == 's' && name[1] == 'p');
    }
    if name == "Henkan"@ {
        assert(name.len() == 6 && name[0] == 'H' && name[1] == 'e');
    }
    if name == "Hiragana_Katakana"@ {
        assert(name.len() == 17 && name[0] == 'H' && name[1] == 'i');
    }
}

} // verus!

verus! {

// ── Socket names ─────────────────────────────────────────────────────────────

pub open spec fn has_suffix(s: Seq<char>, p: Seq<char>) -> bool {
    p.len() <= s.len() && s.subrange(s.len() - p.len(), s.len() as int) == p
}

/// Whether `sub` occurs in `s`.
pub open spec fn has_infix(s: Seq<char>, sub: Seq<char>) -> bool {
    exists|i: int| 0 <= i && i + sub.len() <= s.len() && #[trigger] s.subrange(i, i + sub.len()) == sub
}

fn ends_with(s: &str, p: &str) -> (r: bool)
    ensures
        r == has_suffix(s@, p@),
{
    let n = s.unicode_len();
    let m = p.unicode_len();
    if m > n {
        return false;
    }
    str_eq(s.substring_char(n - m, n), p)
}

fn contains_infix(s: &str, sub: &str) -> (r: bool)
    ensures
        r == has_infix(s@, sub@),
{
    let n = s.unicode_len();
    let m = sub.unicode_len();
    if m > n {
        assert forall|i: int| 0 <= i && i + sub@.len() <= s@.len() implies #[trigger] s@.subrange(i, i + sub@.len()) != sub@ by {}
        return false;
    }
    if m == 0 {
        assert(s@.subrange(0int, 0int + sub@.len()) =~= sub@);
        return true;
    }
    let last = n - m;
    let mut i: usize = 0;
    while i <= last
        invariant
            n == s@.len(),
            m == sub@.len(),
            1 <= m <= n,
            last == n - m,
            i <= last + 1,
            forall|j: int| 0 <= j < i ==> #[trigger] s@.subrange(j, j + m) != sub@,
        decreases last + 1 - i,
    {
        if str_eq(s.substring_char(i, i + m), sub) {
            assert(s@.subrange(i as int, i + m) == sub@);
            return true;
        }
        i = i + 1;
    }
    false
}

/// Whether a socket name is that of Mozc's session server.
pub open spec fn is_mozc_socket_name(t: Seq<char>) -> bool {
    t.len() > 0 && t[0] == '@' && has_infix(t, ".mozc."@) && has_suffix(t, ".session"@)
}

/// The last whitespace-separated word of a line.
pub open spec fn last_word(line: Seq<char>) -> Option<Seq<char>> {
    let ws = spec_split_ws(line);
    if ws.len() > 0 {
        Some(ws.last())
    } else {
        None
    }
}

pub open spec fn first_socket_name(lines: Seq<Seq<char>>) -> Option<Seq<char>>
    decreases lines.len(),
{
    if lines.len() == 0 {
        None
    } else {
        match last_word(lines[0]) {
            Some(t) => if is_mozc_socket_name(t) {
                Some(t)
            } else {
                first_socket_name(lines.drop_first())
            },
            None => first_socket_name(lines.drop_first()),
        }
    }
}

/// The Mozc socket name listed in a socket table such as `/proc/net/unix`:
/// the last word of the first line whose last word starts with `@`,
/// contains `.mozc.` and ends with `.session`.
pub open spec fn spec_socket_name(table: Seq<char>) -> Option<Seq<char>> {
    first_socket_name(crate::config::spec_grid_lines(table))
}

/// The abstract socket name of Mozc's server in the socket table `unix_data`
/// (the contents of `/proc/net/unix`), if it is listed.
pub fn find_abstract_socket_name(unix_data: &str) -> (r: Option<String>)
    ensures
        match spec_socket_name(unix_data@) {
            Some(t) => r matches Some(x) && x@ == t,
            None => r is None,
        },
{
    let lines = grid_lines(unix_data);
    let ghost ls = lines.deep_view();
    let mut i: usize = 0;
    assert(ls.skip(0) =~= ls);
    while i < lines.len()
        invariant
            i <= lines.len(),
            ls == lines.deep_view(),
            ls == crate::config::spec_grid_lines(unix_data@),
            first_socket_name(ls) == first_socket_name(ls.skip(i as int)),
        decreases lines.len() - i,
    {
        assert(ls.skip(i as int)[0] == lines@[i as int]@);
        assert(ls.skip(i as int).drop_first() =~= ls.skip(i + 1));
        let words = split_ws(lines[i].as_str());
        if words.len() > 0 {
            let t = &words[words.len() - 1];
            assert(t@ == spec_split_ws(lines@[i as int]@).last());
            let tn = t.unicode_len();
            if tn > 0 && t.get_char(0) == '@' && contains_infix(t.as_str(), ".mozc.") && ends_with(
                t.as_str(),
                ".session",
            ) {
                return Some(t.clone());
            }
        }
        i = i + 1;
    }
    None
}

/// The value of a hexadecimal digit.
pub open spec fn hex_value(c: char) -> Option<u8> {
    if '0' <= c <= '9' {
        Some((c as u32 - '0' as u32) as u8)
    } else if 'a' <= c <= 'f' {
        Some((c as u32 - 'a' as u32 + 10) as u8)
    } else if 'A' <= c <= 'F' {
        Some((c as u32 - 'A' as u32 + 10) as u8)
    } else {
        None
    }
}

/// The byte two characters write in hexadecimal; a `+` sign may stand for
/// the first digit.
pub open spec fn pair_value(a: char, b: char) -> Option<u8> {
    match (hex_value(a), hex_value(b)) {
        (Some(x), Some(y)) => Some((x * 16 + y) as u8),
        _ => if a == '+' {
            hex_value(b)
        } else {
            None
        },
    }
}

/// The bytes a string of hexadecimal pairs writes.
pub open spec fn hex_pairs(h: Seq<char>) -> Option<Seq<u8>>
    decreases h.len(),
{
    if h.len() == 0 {
        Some(Seq::empty())
    } else if h.len() == 1 {
        None
    } else {
        match (pair_value(h[0], h[1]), hex_pairs(h.skip(2))) {
            (Some(b), Some(r)) => Some(seq![b] + r),
            _ => None,
        }
    }
}

/// The hash part of a socket name `@tmp/.mozc.<hash>.session` (the `@` is optional).
pub open spec fn socket_hash(n: Seq<char>) -> Option<Seq<char>> {
    let name = if n.len() > 0 && n[0] == '@' {
        n.drop_first()
    } else {
        n
    };
    if has_prefix(name, "tmp/.mozc."@) {
        let rest = name.skip("tmp/.mozc."@.len() as int);
        if has_suffix(rest, ".session"@) {
            Some(rest.take(rest.len() - ".session"@.len()))
        } else {
            None
        }
    } else {
        None
    }
}

pub open spec fn spec_ipc_key(n: Seq<char>) -> Option<Seq<u8>> {
    match socket_hash(n) {
        Some(h) => hex_pairs(h),
        None => None,
    }
}

fn hex_digit(c: char) -> (r: Option<u8>)
    ensures
        r == hex_value(c),
{
    if '0' <= c && c <= '9' {
        Some((c as u32 - '0' as u32) as u8)
    } else if 'a' <= c && c <= 'f' {
        Some((c as u32 - 'a' as u32 + 10) as u8)
    } else if 'A' <= c && c <= 'F' {
        Some((c as u32 - 'A' as u32 + 10) as u8)
    } else {
        None
    }
}

/// The bytes that the hash in a Mozc socket name writes in hexadecimal. The
/// hash is not a key: the server authenticates by the peer's credentials.
pub fn ipc_key_from_socket_name(abs_name: &str) -> (r: Option<Vec<u8>>)
    ensures
        match spec_ipc_key(abs_name@) {
            Some(b) => r matches Some(x) && x@ == b,
            None => r is None,
        },
{
    let cs = chars_of(abs_name);
    let n = cs.len();
    let from: usize = if n > 0 && cs[0] == '@' {
        1
    } else {
        0
    };
    let ghost name = if abs_name@.len() > 0 && abs_name@[0] == '@' {
        abs_name@.drop_first()
    } else {
        abs_name@
    };
    assert(name =~= abs_name@.subrange(from as int, n as int));
    let name_s = sub_string(abs_name, from, n);
    let prefix = "tmp/.mozc.";
    let suffix = ".session";
    proof {
        reveal_strlit("tmp/.mozc.");
        reveal_strlit(".session");
    }
    if !crate::text::starts_with(name_s.as_str(), prefix) {
        return None;
    }
    let rest = sub_string(name_s.as_str(), 10, name_s.unicode_len());
    assert(rest@ =~= name.skip(10));
    if !ends_with(rest.as_str(), suffix) {
        return None;
    }
    let hn = rest.unicode_len() - 8;
    let hash = sub_string(rest.as_str(), 0, hn);
    let ghost h = hash@;
    assert(h =~= rest@.take(rest@.len() - 8));
    let hc = chars_of(hash.as_str());
    if hn % 2 != 0 {
        proof {
            lemma_hex_pairs_odd(h);
        }
        return None;
    }
    assert(spec_ipc_key(abs_name@) == hex_pairs(h));
    let mut out: Vec<u8> = Vec::new();
    let mut i: usize = 0;
    assert(h.skip(0) =~= h);
    assert(out@ + Seq::<u8>::empty() =~= out@);
    while i < hn
        invariant
            i <= hn,
            hn == h.len(),
            hc@ == h,
            i % 2 == 0,
            hn % 2 == 0,
            spec_ipc_key(abs_name@) == hex_pairs(h),
            hex_pairs(h) == match hex_pairs(h.skip(i as int)) {
                Some(r) => Some(out@ + r),
                None => None::<Seq<u8>>,
            },
        decreases hn - i,
    {
        let ghost t = h.skip(i as int);
        assert(t[0] == hc@[i as int] && t[1] == hc@[i + 1]);
        assert(t.skip(2) =~= h.skip(i + 2));
        let b = match pair_byte(hc[i], hc[i + 1]) {
            Some(b) => b,
            None => {
                assert(hex_pairs(t) is None);
                return None;
            },
        };
        let ghost before = out@;
        out.push(b);
        proof {
            match hex_pairs(h.skip(i + 2)) {
                Some(r) => {
                    assert(before + (seq![b] + r) =~= out@ + r);
                },
                None => {},
            }
        }
        i = i + 2;
    }
    assert(h.skip(i as int) =~= Seq::<char>::empty());
    assert(out@ + Seq::<u8>::empty() =~= out@);
    Some(out)
}

fn pair_byte(a: char, b: char) -> (r: Option<u8>)
    ensures
        r == pair_value(a, b),
{
    match (hex_digit(a), hex_digit(b)) {
        (Some(x), Some(y)) => Some(x * 16 + y),
        _ => if a == '+' {
            hex_digit(b)
        } else {
            None
        },
    }
}

proof fn lemma_hex_pairs_odd(h: Seq<char>)
    requires
        h.len() % 2 == 1,
    ensures
        hex_pairs(h) is None,
    decreases h.len(),
{
    if h.len() > 1 {
        lemma_hex_pairs_odd(h.skip(2));
    }
}

} // verus!

verus! {

// ── Client ───────────────────────────────────────────────────────────────────

/// A Mozc session client: where the server listens, and the session it
/// holds once created. Each operation gives the request to send over a fresh
/// connection; each response is read back with `read_response`.
pub struct MozcClient {
    /// Filesystem socket path, or `None` to use the abstract socket.
    socket_path: Option<String>,
    /// Abstract socket name (e.g. `@tmp/.mozc.<hash>.session`).
    abstract_name: Option<String>,
    session_id: Option<u64>,
}

pub struct MozcClientV {
    pub socket_path: Option<Seq<char>>,
    pub abstract_name: Option<Seq<char>>,
    pub session_id: Option<u64>,
}

pub open spec fn opt_view(o: Option<String>) -> Option<Seq<char>> {
    match o {
        Some(s) => Some(s@),
        None => None,
    }
}

impl View for MozcClient {
    type V = MozcClientV;

    closed spec fn view(&self) -> MozcClientV {
        MozcClientV {
            socket_path: opt_view(self.socket_path),
            abstract_name: opt_view(self.abstract_name),
            session_id: self.session_id,
        }
    }
}

/// The request for an operation of a client with session `sid`: `Err` when
/// the client has no session.
pub open spec fn with_session(sid: Option<u64>, bytes: spec_fn(u64) -> Seq<u8>, r: Result<EncodedInput, MozcError>) -> bool {
    match sid {
        Some(id) => r matches Ok(e) && e.0@ == bytes(id),
        None => r matches Err(e) && e@ == MozcErrorV::NotConnected,
    }
}

impl MozcClient {
    /// The client for a full connection: the given socket path; else the
    /// abstract socket of a server found or started (`started`); else the
    /// default filesystem socket `default_path`. Its session is created next.
    pub fn connect(socket_path: Option<String>, started: Option<String>, default_path: String) -> (c: Self)
        ensures
            c@ == (match socket_path {
                Some(p) => MozcClientV { socket_path: Some(p@), abstract_name: None, session_id: None },
                None => match started {
                    Some(n) => MozcClientV { socket_path: None, abstract_name: Some(n@), session_id: None },
                    None => MozcClientV { socket_path: Some(default_path@), abstract_name: None, session_id: None },
                },
            }),
    {
        match socket_path {
            Some(p) => MozcClient { socket_path: Some(p), abstract_name: None, session_id: None },
            None => match started {
                Some(n) => MozcClient { socket_path: None, abstract_name: Some(n), session_id: None },
                None => MozcClient { socket_path: Some(default_path), abstract_name: None, session_id: None },
            },
        }
    }

    /// The client for a quick connection, which only uses sockets that are
    /// already there: the given socket path; else the abstract socket found
    /// (`found`); else the default filesystem socket when it exists; else no
    /// connection.
    pub fn connect_quick(
        socket_path: Option<String>,
        found: Option<String>,
        default_path: String,
        default_exists: bool,
    ) -> (r: Result<Self, MozcError>)
        ensures
            match socket_path {
                Some(p) => r matches Ok(c) && c@ == (MozcClientV {
                    socket_path: Some(p@),
                    abstract_name: None,
                    session_id: None,
                }),
                None => match found {
                    Some(n) => r matches Ok(c) && c@ == (MozcClientV {
                        socket_path: None,
                        abstract_name: Some(n@),
                        session_id: None,
                    }),
                    None => if default_exists {
                        r matches Ok(c) && c@ == (MozcClientV {
                            socket_path: Some(default_path@),
                            abstract_name: None,
                            session_id: None,
                        })
                    } else {
                        r matches Err(e) && e@ == MozcErrorV::NotConnected
                    },
                },
            },
    {
        match socket_path {
            Some(p) => Ok(MozcClient { socket_path: Some(p), abstract_name: None, session_id: None }),
            None => match found {
                Some(n) => Ok(MozcClient { socket_path: None, abstract_name: Some(n), session_id: None }),
                None => if default_exists {
                    Ok(MozcClient { socket_path: Some(default_path), abstract_name: None, session_id: None })
                } else {
                    Err(MozcError::NotConnected)
                },
            },
        }
    }

    /// The filesystem socket to connect to, if any.
    pub fn socket_path(&self) -> (r: Option<String>)
        ensures
            opt_view(r) == self@.socket_path,
    {
        match &self.socket_path {
            Some(p) => Some(p.clone()),
            None => None,
        }
    }

    /// The abstract socket to connect to, if any.
    pub fn abstract_name(&self) -> (r: Option<String>)
        ensures
            opt_view(r) == self@.abstract_name,
    {
        match &self.abstract_name {
            Some(p) => Some(p.clone()),
            None => None,
        }
    }

    /// The session id, or 0 without a session.
    pub fn session_id(&self) -> (id: u64)
        ensures
            id == match self@.session_id {
                Some(s) => s,
                None => 0,
            },
    {
        match self.session_id {
            Some(s) => s,
            None => 0,
        }
    }

    fn sid(&self) -> (r: Result<u64, MozcError>)
        ensures
            match self@.session_id {
                Some(s) => r == Ok::<u64, MozcError>(s),
                None => r matches Err(e) && e@ == MozcErrorV::NotConnected,
            },
    {
        match self.session_id {
            Some(s) => Ok(s),
            None => Err(MozcError::NotConnected),
        }
    }

    /// The request that creates the session.
    pub fn create_session_request(&self) -> (r: EncodedInput)
        ensures
            r.0@ == create_session_bytes(),
    {
        input_create_session()
    }

    /// Take the server's answer to the session request: the session it
    /// names. On success the result is the next request of the session
    /// start, `TURN_ON_IME` into hiragana composition (a new session has the
    /// IME off, where kana do not reach the composer).
    pub fn accept_session(&mut self, resp: &[u8]) -> (r: Result<EncodedInput, MozcError>)
        ensures
            match response_of(resp@) {
                Err(e) => r matches Err(x) && x@ == e && final(self)@ == old(self)@,
                Ok(d) => match d.session_id {
                    Some(id) => r matches Ok(req) && req.0@ == turn_on_ime_bytes(id, COMPOSITION_HIRAGANA)
                        && final(self)@ == (MozcClientV { session_id: Some(id), ..old(self)@ }),
                    None => r matches Err(x) && x@ == MozcErrorV::Protocol("CREATE_SESSION returned no id"@)
                        && final(self)@ == old(self)@,
                },
            },
    {
        let out = match MozcClient::read_decoded(resp) {
            Ok(o) => o,
            Err(e) => {
                return Err(e);
            },
        };
        match out.session_id {
            Some(id) => {
                self.session_id = Some(id);
                Ok(input_turn_on_ime(id, COMPOSITION_HIRAGANA))
            },
            None => Err(MozcError::Protocol(String::from_str("CREATE_SESSION returned no id"))),
        }
    }

    /// The request that ends the session, if there is one.
    pub fn delete_session_request(&self) -> (r: Option<EncodedInput>)
        ensures
            match self@.session_id {
                Some(id) => r matches Some(e) && e.0@ == delete_session_bytes(id),
                None => r is None,
            },
    {
        match self.session_id {
            Some(id) => Some(input_delete_session(id)),
            None => None,
        }
    }

    /// Check that a response of `current` bytes may grow by `incoming` more.
    pub fn check_response_length(current: usize, incoming: usize) -> (r: Result<(), MozcError>)
        requires
            current <= MAX_RESPONSE_BYTES,
            incoming <= MAX_RESPONSE_BYTES,
        ensures
            current + incoming <= MAX_RESPONSE_BYTES ==> r is Ok,
            current + incoming > MAX_RESPONSE_BYTES ==> (r matches Err(e) && e@ == MozcErrorV::Protocol(
                "Mozc response length "@ + spec_decimal((current + incoming) as u64)
                    + " exceeds 1048576 bytes"@,
            )),
    {
        let total = current + incoming;
        if total > MAX_RESPONSE_BYTES {
            let msg = String::from_str("Mozc response length ").concat(decimal_string(total as u64).as_str()).concat(
                " exceeds 1048576 bytes",
            );
            Err(MozcError::Protocol(msg))
        } else {
            Ok(())
        }
    }

    /// Decode a complete response.
    pub fn read_decoded(resp: &[u8]) -> (r: Result<DecodedOutput, MozcError>)
        ensures
            match response_of(resp@) {
                Ok(d) => r matches Ok(x) && x@ == d,
                Err(e) => r matches Err(x) && x@ == e,
            },
    {
        if resp.len() == 0 {
            return Err(MozcError::Protocol(String::from_str("empty response from Mozc server")));
        }
        match decode_response(resp) {
            Ok(d) => Ok(d),
            Err(e) => Err(MozcError::Decode(e)),
        }
    }

    /// The output a complete response gives.
    pub fn read_response(resp: &[u8]) -> (r: Result<MozcOutput, MozcError>)
        ensures
            match response_of(resp@) {
                Ok(d) => r matches Ok(x) && x@ == output_of(d),
                Err(e) => r matches Err(x) && x@ == e,
            },
    {
        match MozcClient::read_decoded(resp) {
            Ok(d) => Ok(MozcOutput::from_decoded(d)),
            Err(e) => Err(e),
        }
    }

    /// The request sending `kana` into the composition.
    pub fn send_kana(&self, kana: &str) -> (r: Result<EncodedInput, MozcError>)
        ensures
            with_session(self@.session_id, |id: u64| send_kana_bytes(id, kana.spec_bytes()), r),
    {
        let sid = match self.sid() {
            Ok(s) => s,
            Err(e) => {
                return Err(e);
            },
        };
        Ok(input_send_kana(sid, kana))
    }

    fn send_special_key(&self, code: i32) -> (r: Result<EncodedInput, MozcError>)
        ensures
            with_session(self@.session_id, |id: u64| send_special_bytes(id, code), r),
    {
        let sid = match self.sid() {
            Ok(s) => s,
            Err(e) => {
                return Err(e);
            },
        };
        Ok(input_send_special(sid, code))
    }

    /// The request sending BackSpace.
    pub fn send_backspace(&self) -> (r: Result<EncodedInput, MozcError>)
        ensures
            with_session(self@.session_id, |id: u64| send_special_bytes(id, SPECIAL_BACKSPACE), r),
    {
        self.send_special_key(SPECIAL_BACKSPACE)
    }

    /// The request submitting the composition.
    pub fn submit(&self) -> (r: Result<EncodedInput, MozcError>)
        ensures
            with_session(self@.session_id, |id: u64| session_command_input_bytes(id, SESSION_SUBMIT, None), r),
    {
        let sid = match self.sid() {
            Ok(s) => s,
            Err(e) => {
                return Err(e);
            },
        };
        Ok(input_submit(sid))
    }

    /// The request cancelling the composition.
    pub fn revert(&self) -> (r: Result<EncodedInput, MozcError>)
        ensures
            with_session(self@.session_id, |id: u64| session_command_input_bytes(id, SESSION_REVERT, None), r),
    {
        let sid = match self.sid() {
            Ok(s) => s,
            Err(e) => {
                return Err(e);
            },
        };
        Ok(input_revert(sid))
    }

    /// The request sending Space.
    pub fn send_space(&self) -> (r: Result<EncodedInput, MozcError>)
        ensures
            with_session(self@.session_id, |id: u64| send_special_bytes(id, SPECIAL_SPACE), r),
    {
        self.send_special_key(SPECIAL_SPACE)
    }

    /// The request sending Enter.
    pub fn send_enter(&self) -> (r: Result<EncodedInput, MozcError>)
        ensures
            with_session(self@.session_id, |id: u64| send_special_bytes(id, SPECIAL_ENTER), r),
    {
        self.send_special_key(SPECIAL_ENTER)
    }

    /// The request committing the candidate with Mozc's id `candidate_id`.
    pub fn select_candidate(&self, candidate_id: i32) -> (r: Result<EncodedInput, MozcError>)
        ensures
            with_session(
                self@.session_id,
                |id: u64| session_command_input_bytes(id, SESSION_SELECT_CANDIDATE, Some(int32_varint(candidate_id))),
                r,
            ),
    {
        let sid = match self.sid() {
            Ok(s) => s,
            Err(e) => {
                return Err(e);
            },
        };
        Ok(input_select_candidate(sid, candidate_id))
    }

    /// The request sending the function key named `name`; an error when
    /// Mozc has no special key for it.
    pub fn send_function_key(&self, name: &str) -> (r: Result<EncodedInput, MozcError>)
        ensures
            match spec_special_key(name@) {
                Some(code) => with_session(self@.session_id, |id: u64| send_special_bytes(id, code), r),
                None => r matches Err(e) && e@ == MozcErrorV::Protocol("no Mozc SpecialKey for: "@ + name@),
            },
    {
        let code = match xkb_name_to_mozc_special(name) {
            Some(c) => c,
            None => {
                return Err(
                    MozcError::Protocol(String::from_str("no Mozc SpecialKey for: ").concat(name)),
                );
            },
        };
        self.send_special_key(code)
    }

    /// The request sending `key` with the modifiers `mods` (`MOD_*` bits): a
    /// special key, else a single ASCII character by its code.
    pub fn send_modified_key(&self, key: &str, mods: u8) -> (r: Result<EncodedInput, MozcError>)
        ensures
            match self@.session_id {
                None => r matches Err(e) && e@ == MozcErrorV::NotConnected,
                Some(id) => match spec_special_key(key@) {
                    Some(code) => r matches Ok(e) && e.0@ == send_special_mods_bytes(id, code, mods),
                    None => if key@.len() == 1 && (key@[0] as u32) < 128 {
                        r matches Ok(e) && e.0@ == send_key_code_bytes(id, key@[0] as u32, mods)
                    } else {
                        r matches Err(e) && e@ == MozcErrorV::Protocol("no Mozc encoding for key: "@ + key@)
                    },
                },
            },
    {
        let sid = match self.sid() {
            Ok(s) => s,
            Err(e) => {
                return Err(e);
            },
        };
        match xkb_name_to_mozc_special(key) {
            Some(special) => Ok(input_send_special_with_mods(sid, special, mods)),
            None => {
                if key.unicode_len() == 1 && (key.get_char(0) as u32) < 128 {
                    let code = key.get_char(0) as u32;
                    Ok(input_send_key_code_with_mods(sid, code, mods))
                } else {
                    Err(MozcError::Protocol(String::from_str("no Mozc encoding for key: ").concat(key)))
                }
            },
        }
    }
}

/// What reading a complete response gives: an empty response is an error,
/// else the response is decoded.
pub open spec fn response_of(resp: Seq<u8>) -> Result<DecodedOutputV, MozcErrorV> {
    if resp.len() == 0 {
        Err(MozcErrorV::Protocol("empty response from Mozc server"@))
    } else {
        match spec_decode_response(resp) {
            Ok(d) => Ok(d),
            Err(m) => Err(MozcErrorV::Decode(m)),
        }
    }
}

} // verus!
