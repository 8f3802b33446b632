//! Mozc's `commands.proto` messages, written and read with the library's
//! own protobuf wire codec: the requests the client sends (`Input`) and the
//! response it reads back (`Output`).
use vstd::prelude::*;
use crate::codec::{write_varint_field, write_len_field, spec_varint_field, spec_len_field, DecodeError};
use crate::message::{
    Wire, WireV, WireFieldV, wire_view, wire_fields_view, lemma_wire_fields_view, spec_parse, parse_message,
    message_field, string_field, varint_field, group_field, unknown_check, groups_of, read_message_field,
    read_string_field, read_varint_field, check_group_field, check_unknown, check_declared, declared_check,
};
use vstd::utf8::{valid_utf8, decode_utf8};
use vstd::string::StringSliceAdditionalSpecFns;
use vstd::slice::slice_to_vec;

verus! {

// ── Enum values ──────────────────────────────────────────────────────────────

/// `Input.CommandType`.
pub const CMD_CREATE_SESSION: u64 = 1;
pub const CMD_DELETE_SESSION: u64 = 2;
pub const CMD_SEND_KEY: u64 = 3;
pub const CMD_SEND_COMMAND: u64 = 5;

/// `SessionCommand.CommandType`.
pub const SESSION_REVERT: u64 = 1;
pub const SESSION_SUBMIT: u64 = 2;
/// Select a candidate by id and commit it (closes the candidate window).
pub const SESSION_SELECT_CANDIDATE: u64 = 3;
pub const SESSION_TURN_ON_IME: u64 = 22;

/// `KeyEvent.SpecialKey`.
pub const SPECIAL_SPACE: i32 = 4;
pub const SPECIAL_ENTER: i32 = 5;
pub const SPECIAL_LEFT: i32 = 6;
pub const SPECIAL_RIGHT: i32 = 7;
pub const SPECIAL_UP: i32 = 8;
pub const SPECIAL_DOWN: i32 = 9;
pub const SPECIAL_ESCAPE: i32 = 10;
pub const SPECIAL_DEL: i32 = 11;
pub const SPECIAL_BACKSPACE: i32 = 12;
pub const SPECIAL_HENKAN: i32 = 13;
pub const SPECIAL_MUHENKAN: i32 = 14;
/// Hiragana_Katakana.
pub const SPECIAL_KANA: i32 = 15;
pub const SPECIAL_HOME: i32 = 16;
pub const SPECIAL_END: i32 = 17;
pub const SPECIAL_TAB: i32 = 18;
/// F1 to F12 are contiguous from here.
pub const SPECIAL_F1: i32 = 19;
pub const SPECIAL_PAGE_UP: i32 = 31;
pub const SPECIAL_PAGE_DOWN: i32 = 32;
pub const SPECIAL_INSERT: i32 = 33;

/// `KeyEvent.ModifierKey`.
pub const MODIFIER_CTRL: u64 = 1;
pub const MODIFIER_ALT: u64 = 2;
pub const MODIFIER_SHIFT: u64 = 4;

/// `KeyEvent.InputStyle`: follow the current input mode (romaji table).
pub const STYLE_FOLLOW_MODE: u64 = 0;
/// Insert `key_string` into the composition as is.
pub const STYLE_AS_IS: u64 = 1;
/// Commit `key_string` directly.
pub const STYLE_DIRECT_INPUT: u64 = 2;

/// `Output.mode` / `CompositionMode`.
pub const COMPOSITION_DIRECT: i32 = 0;
pub const COMPOSITION_HIRAGANA: i32 = 1;
pub const COMPOSITION_FULL_KATAKANA: i32 = 2;
pub const COMPOSITION_HALF_ASCII: i32 = 3;
pub const COMPOSITION_FULL_ASCII: i32 = 4;
pub const COMPOSITION_HALF_KATAKANA: i32 = 5;

/// `Preedit.Segment.Annotation`: the segment under conversion.
pub const ANNOTATION_HIGHLIGHT: i32 = 2;

// ── Message layouts ──────────────────────────────────────────────────────────

pub open spec fn opt_varint_field(field: u32, v: Option<u64>) -> Seq<u8> {
    match v {
        Some(x) => spec_varint_field(field, x),
        None => Seq::empty(),
    }
}

pub open spec fn opt_len_field(field: u32, d: Option<Seq<u8>>) -> Seq<u8> {
    match d {
        Some(x) => spec_len_field(field, x),
        None => Seq::empty(),
    }
}

/// One varint field per value (a repeated, unpacked field).
pub open spec fn varint_fields(field: u32, vs: Seq<u64>) -> Seq<u8>
    decreases vs.len(),
{
    if vs.len() == 0 {
        Seq::empty()
    } else {
        varint_fields(field, vs.drop_last()) + spec_varint_field(field, vs.last())
    }
}

/// Bytes of an `Input`: type (1), session id (2), key (3), command (4).
pub open spec fn spec_input(ty: u64, id: Option<u64>, key: Option<Seq<u8>>, command: Option<Seq<u8>>) -> Seq<u8> {
    spec_varint_field(1, ty) + opt_varint_field(2, id) + opt_len_field(3, key) + opt_len_field(4, command)
}

/// Bytes of a `KeyEvent`: key code (1), special key (3), modifier keys (4),
/// key string (5), input style (6).
pub open spec fn spec_key_event(
    key_code: Option<u64>,
    special: Option<u64>,
    mods: Seq<u64>,
    key_string: Option<Seq<u8>>,
    style: Option<u64>,
) -> Seq<u8> {
    opt_varint_field(1, key_code) + opt_varint_field(3, special) + varint_fields(4, mods) + opt_len_field(
        5,
        key_string,
    ) + opt_varint_field(6, style)
}

/// Bytes of a `SessionCommand`: type (1), candidate id (2), composition mode (3).
pub open spec fn spec_session_command(ty: u64, id: Option<u64>, mode: Option<u64>) -> Seq<u8> {
    spec_varint_field(1, ty) + opt_varint_field(2, id) + opt_varint_field(3, mode)
}

/// The varint an `int32` is written as: its two's-complement 64-bit value.
pub open spec fn int32_varint(v: i32) -> u64 {
    if v >= 0 {
        v as u64
    } else {
        (v + 0x1_0000_0000_0000_0000) as u64
    }
}

/// Mozc modifier keys for a mask of `MOD_*` bits: Shift, Ctrl, Alt, in that
/// order. Super has no Mozc counterpart and is left out.
pub open spec fn spec_mods(mods: u8) -> Seq<u64> {
    (if mods & 0x01 != 0 {
        seq![MODIFIER_SHIFT]
    } else {
        Seq::empty()
    }) + (if mods & 0x02 != 0 {
        seq![MODIFIER_CTRL]
    } else {
        Seq::empty()
    }) + (if mods & 0x04 != 0 {
        seq![MODIFIER_ALT]
    } else {
        Seq::empty()
    })
}


// ── Requests ─────────────────────────────────────────────────────────────────

pub open spec fn create_session_bytes() -> Seq<u8> {
    spec_input(CMD_CREATE_SESSION, None, None, None)
}

pub open spec fn turn_on_ime_bytes(sid: u64, mode: i32) -> Seq<u8> {
    spec_input(
        CMD_SEND_COMMAND,
        Some(sid),
        None,
        Some(spec_session_command(SESSION_TURN_ON_IME, None, Some(int32_varint(mode)))),
    )
}

pub open spec fn delete_session_bytes(sid: u64) -> Seq<u8> {
    spec_input(CMD_DELETE_SESSION, Some(sid), None, None)
}

pub open spec fn send_kana_bytes(sid: u64, kana: Seq<u8>) -> Seq<u8> {
    spec_input(
        CMD_SEND_KEY,
        Some(sid),
        Some(spec_key_event(None, None, Seq::empty(), Some(kana), Some(STYLE_AS_IS))),
        None,
    )
}

pub open spec fn send_special_bytes(sid: u64, special: i32) -> Seq<u8> {
    spec_input(
        CMD_SEND_KEY,
        Some(sid),
        Some(spec_key_event(None, Some(int32_varint(special)), Seq::empty(), None, Some(STYLE_FOLLOW_MODE))),
        None,
    )
}

pub open spec fn send_special_mods_bytes(sid: u64, special: i32, mods: u8) -> Seq<u8> {
    spec_input(
        CMD_SEND_KEY,
        Some(sid),
        Some(spec_key_event(None, Some(int32_varint(special)), spec_mods(mods), None, Some(STYLE_FOLLOW_MODE))),
        None,
    )
}

pub open spec fn send_key_code_bytes(sid: u64, key_code: u32, mods: u8) -> Seq<u8> {
    spec_input(
        CMD_SEND_KEY,
        Some(sid),
        Some(spec_key_event(Some(key_code as u64), None, spec_mods(mods), None, None)),
        None,
    )
}

pub open spec fn session_command_input_bytes(sid: u64, ty: u64, id: Option<u64>) -> Seq<u8> {
    spec_input(CMD_SEND_COMMAND, Some(sid), None, Some(spec_session_command(ty, id, None)))
}

// ── Encoding ─────────────────────────────────────────────────────────────────

/// An encoded `Input` message ready to send.
#[derive(Debug, Clone)]
pub struct EncodedInput(pub Vec<u8>);

fn int32_to_varint(v: i32) -> (r: u64)
    ensures
        r == int32_varint(v),
{
    if v >= 0 {
        v as u64
    } else {
        let w: i128 = v as i128 + 0x1_0000_0000_0000_0000i128;
        w as u64
    }
}

fn put_opt_varint(buf: &mut Vec<u8>, field: u32, v: Option<u64>)
    ensures
        final(buf)@ == old(buf)@ + opt_varint_field(field, v),
{
    match v {
        Some(x) => write_varint_field(buf, field, x),
        None => {
            assert(buf@ =~= old(buf)@ + Seq::<u8>::empty());
        },
    }
}

fn put_opt_len(buf: &mut Vec<u8>, field: u32, d: Option<&Vec<u8>>)
    ensures
        final(buf)@ == old(buf)@ + opt_len_field(
            field,
            match d {
                Some(x) => Some(x@),
                None => None,
            },
        ),
{
    match d {
        Some(x) => write_len_field(buf, field, x.as_slice()),
        None => {
            assert(buf@ =~= old(buf)@ + Seq::<u8>::empty());
        },
    }
}

/// Write an `Input`.
fn input_bytes(ty: u64, id: Option<u64>, key: Option<&Vec<u8>>, command: Option<&Vec<u8>>) -> (r: EncodedInput)
    ensures
        r.0@ == spec_input(
            ty,
            id,
            match key {
                Some(x) => Some(x@),
                None => None,
            },
            match command {
                Some(x) => Some(x@),
                None => None,
            },
        ),
{
    let mut buf: Vec<u8> = Vec::new();
    write_varint_field(&mut buf, 1, ty);
    put_opt_varint(&mut buf, 2, id);
    put_opt_len(&mut buf, 3, key);
    put_opt_len(&mut buf, 4, command);
    assert(buf@ =~= spec_input(
        ty,
        id,
        match key {
            Some(x) => Some(x@),
            None => None,
        },
        match command {
            Some(x) => Some(x@),
            None => None,
        },
    ));
    EncodedInput(buf)
}

/// Write a `KeyEvent`.
fn key_event_bytes(
    key_code: Option<u64>,
    special: Option<u64>,
    mods: &Vec<u64>,
    key_string: Option<&Vec<u8>>,
    style: Option<u64>,
) -> (r: Vec<u8>)
    ensures
        r@ == spec_key_event(
            key_code,
            special,
            mods@,
            match key_string {
                Some(x) => Some(x@),
                None => None,
            },
            style,
        ),
{
    let mut buf: Vec<u8> = Vec::new();
    put_opt_varint(&mut buf, 1, key_code);
    put_opt_varint(&mut buf, 3, special);
    let ghost before = buf@;
    let mut i: usize = 0;
    assert(mods@.take(0) =~= Seq::<u64>::empty());
    assert(buf@ =~= before + varint_fields(4, mods@.take(0)));
    while i < mods.len()
        invariant
            i <= mods.len(),
            buf@ == before + varint_fields(4, mods@.take(i as int)),
        decreases mods.len() - i,
    {
        assert(mods@.take(i + 1).drop_last() =~= mods@.take(i as int));
        write_varint_field(&mut buf, 4, mods[i]);
        assert(buf@ =~= before + varint_fields(4, mods@.take(i + 1)));
        i = i + 1;
    }
    assert(mods@.take(i as int) =~= mods@);
    put_opt_len(&mut buf, 5, key_string);
    put_opt_varint(&mut buf, 6, style);
    assert(buf@ =~= spec_key_event(
        key_code,
        special,
        mods@,
        match key_string {
            Some(x) => Some(x@),
            None => None,
        },
        style,
    ));
    buf
}

/// Write a `SessionCommand`.
fn session_command_bytes(ty: u64, id: Option<u64>, mode: Option<u64>) -> (r: Vec<u8>)
    ensures
        r@ == spec_session_command(ty, id, mode),
{
    let mut buf: Vec<u8> = Vec::new();
    write_varint_field(&mut buf, 1, ty);
    put_opt_varint(&mut buf, 2, id);
    put_opt_varint(&mut buf, 3, mode);
    assert(buf@ =~= spec_session_command(ty, id, mode));
    buf
}

/// The bytes sent on the wire for a request: the raw `Input` message.
pub fn encode_command(input: &EncodedInput) -> (r: Vec<u8>)
    ensures
        r@ == input.0@,
{
    input.0.clone()
}

/// A `CREATE_SESSION` request.
pub fn input_create_session() -> (r: EncodedInput)
    ensures
        r.0@ == create_session_bytes(),
{
    input_bytes(CMD_CREATE_SESSION, None, None, None)
}

/// A `SEND_COMMAND` / `TURN_ON_IME` request switching the session to
/// composition mode `mode`. New sessions start with the IME off, so this is
/// needed before kana input is taken.
pub fn input_turn_on_ime(session_id: u64, mode: i32) -> (r: EncodedInput)
    ensures
        r.0@ == turn_on_ime_bytes(session_id, mode),
{
    let command = session_command_bytes(SESSION_TURN_ON_IME, None, Some(int32_to_varint(mode)));
    input_bytes(CMD_SEND_COMMAND, Some(session_id), None, Some(&command))
}

/// A `DELETE_SESSION` request.
pub fn input_delete_session(session_id: u64) -> (r: EncodedInput)
    ensures
        r.0@ == delete_session_bytes(session_id),
{
    input_bytes(CMD_DELETE_SESSION, Some(session_id), None, None)
}

/// A `SEND_KEY` request inserting `kana` into the composition as is.
pub fn input_send_kana(session_id: u64, kana: &str) -> (r: EncodedInput)
    ensures
        r.0@ == send_kana_bytes(session_id, kana.spec_bytes()),
{
    let text = slice_to_vec(kana.as_bytes());
    let no_mods: Vec<u64> = Vec::new();
    assert(no_mods@ =~= Seq::<u64>::empty());
    let key = key_event_bytes(None, None, &no_mods, Some(&text), Some(STYLE_AS_IS));
    input_bytes(CMD_SEND_KEY, Some(session_id), Some(&key), None)
}

/// A `SEND_KEY` request for a special key.
pub fn input_send_special(session_id: u64, special: i32) -> (r: EncodedInput)
    ensures
        r.0@ == send_special_bytes(session_id, special),
{
    let no_mods: Vec<u64> = Vec::new();
    assert(no_mods@ =~= Seq::<u64>::empty());
    let key = key_event_bytes(None, Some(int32_to_varint(special)), &no_mods, None, Some(STYLE_FOLLOW_MODE));
    input_bytes(CMD_SEND_KEY, Some(session_id), Some(&key), None)
}

/// Mozc modifier keys for a mask of `MOD_*` bits. Super has no Mozc
/// counterpart and is left out: the caller forwards such keys itself.
fn mods_to_vec(mods: u8) -> (r: Vec<u64>)
    ensures
        r@ == spec_mods(mods),
{
    let mut v: Vec<u64> = Vec::new();
    if mods & 0x01 != 0 {
        v.push(MODIFIER_SHIFT);
    }
    if mods & 0x02 != 0 {
        v.push(MODIFIER_CTRL);
    }
    if mods & 0x04 != 0 {
        v.push(MODIFIER_ALT);
    }
    assert(v@ =~= spec_mods(mods));
    v
}

/// A `SEND_KEY` request for a special key with modifiers (e.g. `S-!Left`).
pub fn input_send_special_with_mods(session_id: u64, special: i32, mods: u8) -> (r: EncodedInput)
    ensures
        r.0@ == send_special_mods_bytes(session_id, special, mods),
{
    let ms = mods_to_vec(mods);
    let key = key_event_bytes(None, Some(int32_to_varint(special)), &ms, None, Some(STYLE_FOLLOW_MODE));
    input_bytes(CMD_SEND_KEY, Some(session_id), Some(&key), None)
}

/// A `SEND_KEY` request for an ASCII key code with modifiers (e.g. `C-z`).
pub fn input_send_key_code_with_mods(session_id: u64, key_code: u32, mods: u8) -> (r: EncodedInput)
    ensures
        r.0@ == send_key_code_bytes(session_id, key_code, mods),
{
    let ms = mods_to_vec(mods);
    let key = key_event_bytes(Some(key_code as u64), None, &ms, None, None);
    input_bytes(CMD_SEND_KEY, Some(session_id), Some(&key), None)
}

/// A `SEND_COMMAND` / `SUBMIT` request.
pub fn input_submit(session_id: u64) -> (r: EncodedInput)
    ensures
        r.0@ == session_command_input_bytes(session_id, SESSION_SUBMIT, None),
{
    let command = session_command_bytes(SESSION_SUBMIT, None, None);
    input_bytes(CMD_SEND_COMMAND, Some(session_id), None, Some(&command))
}

/// A `SEND_COMMAND` / `REVERT` request (cancel the current preedit).
pub fn input_revert(session_id: u64) -> (r: EncodedInput)
    ensures
        r.0@ == session_command_input_bytes(session_id, SESSION_REVERT, None),
{
    let command = session_command_bytes(SESSION_REVERT, None, None);
    input_bytes(CMD_SEND_COMMAND, Some(session_id), None, Some(&command))
}

/// A `SEND_COMMAND` / `SELECT_CANDIDATE` request committing the candidate
/// with Mozc's id `candidate_id`.
pub fn input_select_candidate(session_id: u64, candidate_id: i32) -> (r: EncodedInput)
    ensures
        r.0@ == session_command_input_bytes(session_id, SESSION_SELECT_CANDIDATE, Some(int32_varint(candidate_id))),
{
    let command = session_command_bytes(SESSION_SELECT_CANDIDATE, Some(int32_to_varint(candidate_id)), None);
    input_bytes(CMD_SEND_COMMAND, Some(session_id), None, Some(&command))
}

} // verus!

verus! {

// ── Decoding ─────────────────────────────────────────────────────────────────

/// `std::str::from_utf8`: the text that `b` encodes, when `b` is UTF-8.
#[verifier::external_body]
pub(crate) fn utf8_string(b: &[u8]) -> (r: Option<String>)
    ensures
        match r {
            Some(s) => valid_utf8(b@) && s@ == decode_utf8(b@),
            None => !valid_utf8(b@),
        },
{
    match std::str::from_utf8(b) {
        Ok(s) => Some(s.to_string()),
        Err(_) => None,
    }
}

/// Model of a candidate.
pub struct CandidateV {
    pub index: u32,
    pub value: Seq<char>,
    pub id: Option<i32>,
    pub annotation: Option<Seq<char>>,
}

/// Model of a decoded `Output`.
pub struct DecodedOutputV {
    pub session_id: Option<u64>,
    pub mode: i32,
    pub consumed: bool,
    pub result_value: Option<Seq<char>>,
    pub preedit_text: Seq<char>,
    pub preedit_has_highlight: bool,
    pub candidates: Seq<CandidateV>,
    pub focused_index: Option<u32>,
    pub candidate_size: u32,
}

pub open spec fn or_empty(o: Option<Seq<char>>) -> Seq<char> {
    match o {
        Some(t) => t,
        None => Seq::empty(),
    }
}

pub open spec fn low_u32(v: u64) -> u32 {
    #[verifier::truncate] (v as u32)
}

pub open spec fn low_i32(v: u64) -> i32 {
    #[verifier::truncate] (v as i32)
}

/// Nesting levels a generated decoder allows a message (its recursion
/// limit), and so those left for `Output`'s own fields.
pub const OUTPUT_LEVELS: u32 = 100;

/// `Result` (in `Output.result`, field 4): its value (field 2). Its other
/// declared fields are decoded too: type (1) and cursor offset (4), varints,
/// and key (3), a string.
pub open spec fn read_result(fs: Seq<WireFieldV>) -> Result<Option<Seq<char>>, Seq<char>> {
    match message_field(fs, 4, 100) {
        Err(e) => Err(e),
        Ok(None) => Ok(None),
        Ok(Some(r)) => match unknown_check(r, seq![1u32, 2u32, 3u32, 4u32], 99) {
            Err(e) => Err(e),
            Ok(_) => match declared_check(r, seq![1u32, 4u32], seq![3u32], Seq::<u32>::empty(), 99) {
                Err(e) => Err(e),
                Ok(_) => match string_field(r, 2) {
                    Err(e) => Err(e),
                    Ok(v) => Ok(Some(or_empty(v))),
                },
            },
        },
    }
}

/// A preedit `Segment` group: its value (field 4) and whether its
/// annotation (field 3) is the highlight. Also decoded: value length (5), a
/// varint, and key (6), a string.
pub open spec fn read_segment(seg: Seq<WireFieldV>) -> Result<(Seq<char>, bool), Seq<char>> {
    match unknown_check(seg, seq![3u32, 4u32, 5u32, 6u32], 98) {
        Err(e) => Err(e),
        Ok(_) => match declared_check(seg, seq![5u32], seq![6u32], Seq::<u32>::empty(), 98) {
            Err(e) => Err(e),
            Ok(_) => match varint_field(seg, 3) {
                Err(e) => Err(e),
                Ok(a) => match string_field(seg, 4) {
                    Err(e) => Err(e),
                    Ok(v) => Ok((or_empty(v), a matches Some(x) && low_i32(x) == ANNOTATION_HIGHLIGHT)),
                },
            },
        },
    }
}

/// The segments in order: their text joined, and whether one is highlighted.
pub open spec fn read_segments(segs: Seq<Seq<WireFieldV>>) -> Result<(Seq<char>, bool), Seq<char>>
    decreases segs.len(),
{
    if segs.len() == 0 {
        Ok((Seq::empty(), false))
    } else {
        match read_segments(segs.drop_last()) {
            Err(e) => Err(e),
            Ok((t, h)) => match read_segment(segs.last()) {
                Err(e) => Err(e),
                Ok((t2, h2)) => Ok((t + t2, h || h2)),
            },
        }
    }
}

/// `Output.preedit` (field 5): its segments (group 2). Also decoded: cursor
/// (1), highlighted position (3) and toggleable flag (4), all varints.
pub open spec fn read_preedit(fs: Seq<WireFieldV>) -> Result<(Seq<char>, bool), Seq<char>> {
    match message_field(fs, 5, 100) {
        Err(e) => Err(e),
        Ok(None) => Ok((Seq::empty(), false)),
        Ok(Some(p)) => match unknown_check(p, seq![1u32, 2u32, 3u32, 4u32], 99) {
            Err(e) => Err(e),
            Ok(_) => match declared_check(p, seq![1u32, 3u32, 4u32], Seq::<u32>::empty(), Seq::<u32>::empty(), 99) {
                Err(e) => Err(e),
                Ok(_) => match group_field(p, 2, 99) {
                    Err(e) => Err(e),
                    Ok(segs) => read_segments(segs),
                },
            },
        },
    }
}

/// A candidate's `Annotation` (field 7): its description (3), else its
/// suffix (2). Also decoded: prefix (1) and shortcut (4), strings, and the
/// deletable flag (5), a varint.
pub open spec fn read_annotation(c: Seq<WireFieldV>) -> Result<Option<Seq<char>>, Seq<char>> {
    match message_field(c, 7, 98) {
        Err(e) => Err(e),
        Ok(None) => Ok(None),
        Ok(Some(a)) => match unknown_check(a, seq![1u32, 2u32, 3u32, 4u32, 5u32], 97) {
            Err(e) => Err(e),
            Ok(_) => match declared_check(a, seq![5u32], seq![1u32, 4u32], Seq::<u32>::empty(), 97) {
                Err(e) => Err(e),
                Ok(_) => match string_field(a, 3) {
                    Err(e) => Err(e),
                    Ok(d) => match string_field(a, 2) {
                        Err(e) => Err(e),
                        Ok(x) => Ok(
                            if d is Some {
                                d
                            } else {
                                x
                            },
                        ),
                    },
                },
            },
        },
    }
}

/// A `Candidate` group: index (4), value (5), id (9), annotation (7). Also
/// decoded: information id (10), a varint.
pub open spec fn read_candidate(c: Seq<WireFieldV>) -> Result<CandidateV, Seq<char>> {
    match unknown_check(c, seq![4u32, 5u32, 7u32, 9u32, 10u32], 98) {
        Err(e) => Err(e),
        Ok(_) => match declared_check(c, seq![10u32], Seq::<u32>::empty(), Seq::<u32>::empty(), 98) {
            Err(e) => Err(e),
            Ok(_) => match varint_field(c, 4) {
                Err(e) => Err(e),
                Ok(index) => match string_field(c, 5) {
                    Err(e) => Err(e),
                    Ok(value) => match varint_field(c, 9) {
                        Err(e) => Err(e),
                        Ok(id) => match read_annotation(c) {
                            Err(e) => Err(e),
                            Ok(annotation) => Ok(
                                CandidateV {
                                    index: match index {
                                        Some(x) => low_u32(x),
                                        None => 0,
                                    },
                                    value: or_empty(value),
                                    id: match id {
                                        Some(x) => Some(low_i32(x)),
                                        None => None,
                                    },
                                    annotation,
                                },
                            ),
                        },
                    },
                },
            },
        },
    }
}

pub open spec fn read_candidates(cs: Seq<Seq<WireFieldV>>) -> Result<Seq<CandidateV>, Seq<char>>
    decreases cs.len(),
{
    if cs.len() == 0 {
        Ok(Seq::empty())
    } else {
        match read_candidates(cs.drop_last()) {
            Err(e) => Err(e),
            Ok(r) => match read_candidate(cs.last()) {
                Err(e) => Err(e),
                Ok(c) => Ok(r.push(c)),
            },
        }
    }
}

/// Model of what `Output.candidate_window` gives.
pub struct WindowV {
    pub candidates: Seq<CandidateV>,
    pub focused_index: Option<u32>,
    pub size: u32,
}

/// `Output.candidate_window` (field 6): focused index (1), size (2) and the
/// candidates (group 3). Also decoded: position (6), category (11), display
/// type (12) and direction (14), varints; sub-candidates (8), usages (10) and
/// footer (13), embedded messages.
pub open spec fn read_window(fs: Seq<WireFieldV>) -> Result<WindowV, Seq<char>> {
    match message_field(fs, 6, 100) {
        Err(e) => Err(e),
        Ok(None) => Ok(WindowV { candidates: Seq::empty(), focused_index: None, size: 0 }),
        Ok(Some(w)) => match unknown_check(
            w,
            seq![1u32, 2u32, 3u32, 6u32, 8u32, 10u32, 11u32, 12u32, 13u32, 14u32],
            99,
        ) {
            Err(e) => Err(e),
            Ok(_) => match declared_check(
                w,
                seq![6u32, 11u32, 12u32, 14u32],
                Seq::<u32>::empty(),
                seq![8u32, 10u32, 13u32],
                99,
            ) {
                Err(e) => Err(e),
                Ok(_) => match varint_field(w, 1) {
                    Err(e) => Err(e),
                    Ok(f) => match varint_field(w, 2) {
                        Err(e) => Err(e),
                        Ok(size) => match group_field(w, 3, 99) {
                            Err(e) => Err(e),
                            Ok(cs) => match read_candidates(cs) {
                                Err(e) => Err(e),
                                Ok(c) => Ok(
                                    WindowV {
                                        candidates: c,
                                        focused_index: match f {
                                            Some(x) => Some(low_u32(x)),
                                            None => None,
                                        },
                                        size: match size {
                                            Some(x) => low_u32(x),
                                            None => 0,
                                        },
                                    },
                                ),
                            },
                        },
                    },
                },
            },
        },
    }
}

/// An `Output`, read as a generated decoder reads it: a known field of the
/// wrong wire type is an error, of a field given twice the last value counts
/// (a message's occurrences are merged), and unknown fields are skipped.
/// Read: id (1), mode (2, default direct), consumed (3), result (4),
/// preedit (5) and candidate window (6). Decoded and not used: preedit
/// method (10), error code (11) and tool mode (12), varints; url (8), a
/// string; key (7), status (13), callback (14), deletion range (16) and all
/// candidate words (17), embedded messages.
pub open spec fn read_output(fs: Seq<WireFieldV>) -> Result<DecodedOutputV, Seq<char>> {
    match unknown_check(
        fs,
        seq![1u32, 2u32, 3u32, 4u32, 5u32, 6u32, 7u32, 8u32, 10u32, 11u32, 12u32, 13u32, 14u32, 16u32, 17u32],
        100,
    ) {
        Err(e) => Err(e),
        Ok(_) => match declared_check(
            fs,
            seq![10u32, 11u32, 12u32],
            seq![8u32],
            seq![7u32, 13u32, 14u32, 16u32, 17u32],
            100,
        ) {
            Err(e) => Err(e),
            Ok(_) => match varint_field(fs, 1) {
                Err(e) => Err(e),
                Ok(id) => match varint_field(fs, 2) {
                    Err(e) => Err(e),
                    Ok(mode) => match varint_field(fs, 3) {
                        Err(e) => Err(e),
                        Ok(consumed) => match read_result(fs) {
                            Err(e) => Err(e),
                            Ok(r) => match read_preedit(fs) {
                                Err(e) => Err(e),
                                Ok((t, h)) => match read_window(fs) {
                                    Err(e) => Err(e),
                                    Ok(w) => Ok(
                                        DecodedOutputV {
                                            session_id: id,
                                            mode: match mode {
                                                Some(m) => low_i32(m),
                                                None => COMPOSITION_DIRECT,
                                            },
                                            consumed: match consumed {
                                                Some(c) => c != 0,
                                                None => false,
                                            },
                                            result_value: r,
                                            preedit_text: t,
                                            preedit_has_highlight: h,
                                            candidates: w.candidates,
                                            focused_index: w.focused_index,
                                            candidate_size: w.size,
                                        },
                                    ),
                                },
                            },
                        },
                    },
                },
            },
        },
    }
}

/// What decoding the bytes of a response gives.
pub open spec fn spec_decode_response(data: Seq<u8>) -> Result<DecodedOutputV, Seq<char>> {
    match spec_parse(data) {
        Err(m) => Err(m),
        Ok(fs) => read_output(fs),
    }
}

/// One entry of Mozc's candidate window (prediction or conversion).
#[derive(Debug, Clone, PartialEq, Eq)]
pub struct Candidate {
    /// Display index within the candidate window (0-based).
    pub index: u32,
    /// Candidate text.
    pub value: String,
    /// Mozc's candidate id, used to select it; `None` when Mozc gave none
    /// (such a candidate cannot be selected).
    pub id: Option<i32>,
    /// Annotation (description or suffix).
    pub annotation: Option<String>,
}

impl View for Candidate {
    type V = CandidateV;

    open spec fn view(&self) -> CandidateV {
        CandidateV {
            index: self.index,
            value: self.value@,
            id: self.id,
            annotation: match self.annotation {
                Some(a) => Some(a@),
                None => None,
            },
        }
    }
}

impl DeepView for Candidate {
    type V = CandidateV;

    open spec fn deep_view(&self) -> CandidateV {
        self@
    }
}

impl Default for Candidate {
    fn default() -> (c: Self)
        ensures
            c@ == (CandidateV { index: 0, value: Seq::empty(), id: None, annotation: None }),
    {
        Candidate { index: 0, value: String::new(), id: None, annotation: None }
    }
}

/// A decoded Mozc `Output`.
#[derive(Debug)]
pub struct DecodedOutput {
    pub session_id: Option<u64>,
    pub mode: i32,
    pub consumed: bool,
    pub result_value: Option<String>,
    pub preedit_text: String,
    /// Whether some preedit segment is highlighted (conversion is under way).
    pub preedit_has_highlight: bool,
    /// Candidates of the current window page.
    pub candidates: Vec<Candidate>,
    /// Focused candidate during conversion; `None` for a suggestion window
    /// or without a window.
    pub focused_index: Option<u32>,
    /// Number of candidates over all pages.
    pub candidate_size: u32,
}

impl View for DecodedOutput {
    type V = DecodedOutputV;

    open spec fn view(&self) -> DecodedOutputV {
        DecodedOutputV {
            session_id: self.session_id,
            mode: self.mode,
            consumed: self.consumed,
            result_value: match self.result_value {
                Some(a) => Some(a@),
                None => None,
            },
            preedit_text: self.preedit_text@,
            preedit_has_highlight: self.preedit_has_highlight,
            candidates: self.candidates.deep_view(),
            focused_index: self.focused_index,
            candidate_size: self.candidate_size,
        }
    }
}


fn or_empty_string(o: Option<String>) -> (r: String)
    ensures
        r@ == or_empty(match o {
            Some(t) => Some(t@),
            None => None,
        }),
{
    match o {
        Some(t) => t,
        None => String::new(),
    }
}

spec fn opt_view(o: Option<String>) -> Option<Seq<char>> {
    match o {
        Some(t) => Some(t@),
        None => None,
    }
}

fn exec_read_result(fs: &Vec<(u32, Wire)>) -> (r: Result<Option<String>, DecodeError>)
    ensures
        match read_result(wire_fields_view(fs@)) {
            Ok(o) => r matches Ok(x) && opt_view(x) == o,
            Err(e) => r matches Err(x) && x.0@ == e,
        },
{
    let r = match read_message_field(fs, 4, 100) {
        Err(e) => return Err(e),
        Ok(None) => return Ok(None),
        Ok(Some(r)) => r,
    };
    let mut known: Vec<u32> = Vec::new();
    known.push(1);
    known.push(2);
    known.push(3);
    known.push(4);
    assert(known@ =~= seq![1u32, 2u32, 3u32, 4u32]);
    match check_unknown(&r, &known, 99) {
        Err(e) => return Err(e),
        Ok(_) => {},
    }
    let mut scalars: Vec<u32> = Vec::new();
    scalars.push(1);
    scalars.push(4);
    assert(scalars@ =~= seq![1u32, 4u32]);
    let mut strings: Vec<u32> = Vec::new();
    strings.push(3);
    assert(strings@ =~= seq![3u32]);
    let mut messages: Vec<u32> = Vec::new();
    assert(messages@ =~= Seq::<u32>::empty());
    match check_declared(&r, &scalars, &strings, &messages, 99) {
        Err(e) => return Err(e),
        Ok(_) => {},
    }
    match read_string_field(&r, 2) {
        Err(e) => Err(e),
        Ok(v) => Ok(Some(or_empty_string(v))),
    }
}

fn exec_read_segment(seg: &Vec<(u32, Wire)>) -> (r: Result<(String, bool), DecodeError>)
    ensures
        match read_segment(wire_fields_view(seg@)) {
            Ok((t, h)) => r matches Ok(x) && x.0@ == t && x.1 == h,
            Err(e) => r matches Err(x) && x.0@ == e,
        },
{
    let mut known: Vec<u32> = Vec::new();
    known.push(3);
    known.push(4);
    known.push(5);
    known.push(6);
    assert(known@ =~= seq![3u32, 4u32, 5u32, 6u32]);
    match check_unknown(seg, &known, 98) {
        Err(e) => return Err(e),
        Ok(_) => {},
    }
    let mut scalars: Vec<u32> = Vec::new();
    scalars.push(5);
    assert(scalars@ =~= seq![5u32]);
    let mut strings: Vec<u32> = Vec::new();
    strings.push(6);
    assert(strings@ =~= seq![6u32]);
    let mut messages: Vec<u32> = Vec::new();
    assert(messages@ =~= Seq::<u32>::empty());
    match check_declared(seg, &scalars, &strings, &messages, 98) {
        Err(e) => return Err(e),
        Ok(_) => {},
    }
    let a = match read_varint_field(seg, 3) {
        Err(e) => return Err(e),
        Ok(a) => a,
    };
    let v = match read_string_field(seg, 4) {
        Err(e) => return Err(e),
        Ok(v) => v,
    };
    let highlighted = match a {
        Some(x) => {
            let y: i32 = #[verifier::truncate] (x as i32);
            y == ANNOTATION_HIGHLIGHT
        },
        None => false,
    };
    Ok((or_empty_string(v), highlighted))
}

proof fn lemma_segments_prefix_error(v: Seq<WireFieldV>, k: int)
    requires
        0 <= k <= v.len(),
        read_segments(groups_of(v.take(k), 2)) is Err,
    ensures
        read_segments(groups_of(v, 2)) == read_segments(groups_of(v.take(k), 2)),
    decreases v.len() - k,
{
    if k < v.len() {
        let t = v.take(k + 1);
        assert(t.drop_last() =~= v.take(k));
        assert(t.last() == v[k]);
        let gs = groups_of(t, 2);
        if v[k].0 == 2 && v[k].1 is Group {
            assert(gs.drop_last() =~= groups_of(v.take(k), 2));
        } else {
            assert(gs == groups_of(v.take(k), 2));
        }
        lemma_segments_prefix_error(v, k + 1);
    } else {
        assert(v.take(k) =~= v);
    }
}

fn exec_read_preedit(fs: &Vec<(u32, Wire)>) -> (r: Result<(String, bool), DecodeError>)
    ensures
        match read_preedit(wire_fields_view(fs@)) {
            Ok((t, h)) => r matches Ok(x) && x.0@ == t && x.1 == h,
            Err(e) => r matches Err(x) && x.0@ == e,
        },
{
    let p = match read_message_field(fs, 5, 100) {
        Err(e) => return Err(e),
        Ok(None) => return Ok((String::new(), false)),
        Ok(Some(p)) => p,
    };
    let mut known: Vec<u32> = Vec::new();
    known.push(1);
    known.push(2);
    known.push(3);
    known.push(4);
    assert(known@ =~= seq![1u32, 2u32, 3u32, 4u32]);
    match check_unknown(&p, &known, 99) {
        Err(e) => return Err(e),
        Ok(_) => {},
    }
    let mut scalars: Vec<u32> = Vec::new();
    scalars.push(1);
    scalars.push(3);
    scalars.push(4);
    assert(scalars@ =~= seq![1u32, 3u32, 4u32]);
    let mut strings: Vec<u32> = Vec::new();
    assert(strings@ =~= Seq::<u32>::empty());
    let mut messages: Vec<u32> = Vec::new();
    assert(messages@ =~= Seq::<u32>::empty());
    match check_declared(&p, &scalars, &strings, &messages, 99) {
        Err(e) => return Err(e),
        Ok(_) => {},
    }
    match check_group_field(&p, 2, 99) {
        Err(e) => return Err(e),
        Ok(_) => {},
    }
    let ghost v = wire_fields_view(p@);
    proof {
        lemma_wire_fields_view(p@);
    }
    let mut text = String::new();
    let mut highlighted = false;
    let mut i: usize = 0;
    assert(v.take(0) =~= Seq::<WireFieldV>::empty());
    while i < p.len()
        invariant
            i <= p@.len(),
            v == wire_fields_view(p@),
            v.len() == p@.len(),
            forall|j: int| 0 <= j < p@.len() ==> #[trigger] v[j] == (p@[j].0, wire_view(p@[j].1)),
            read_segments(groups_of(v.take(i as int), 2)) == Ok::<(Seq<char>, bool), Seq<char>>((text@, highlighted)),
            read_preedit(wire_fields_view(fs@)) == read_segments(groups_of(v, 2)),
        decreases p@.len() - i,
    {
        assert(v[i as int] == (p@[i as int].0, wire_view(p@[i as int].1)));
        assert(v.take(i + 1).drop_last() =~= v.take(i as int));
        assert(v.take(i + 1).last() == v[i as int]);
        let ghost gs = groups_of(v.take(i + 1), 2);
        if p[i].0 == 2 {
            match &p[i].1 {
                Wire::Group(g) => {
                    assert(gs.drop_last() =~= groups_of(v.take(i as int), 2));
                    assert(gs.last() == wire_fields_view(g@));
                    match exec_read_segment(g) {
                        Err(e) => {
                            assert(read_segments(gs) == Err::<(Seq<char>, bool), Seq<char>>(e.0@));
                            proof {
                                lemma_segments_prefix_error(v, i + 1);
                            }
                            return Err(e);
                        },
                        Ok((t, h)) => {
                            text = text.concat(t.as_str());
                            highlighted = highlighted || h;
                        },
                    }
                },
                _ => {
                    assert(gs == groups_of(v.take(i as int), 2));
                },
            }
        } else {
            assert(gs == groups_of(v.take(i as int), 2));
        }
        i = i + 1;
    }
    assert(v.take(i as int) =~= v);
    Ok((text, highlighted))
}

fn exec_read_annotation(c: &Vec<(u32, Wire)>) -> (r: Result<Option<String>, DecodeError>)
    ensures
        match read_annotation(wire_fields_view(c@)) {
            Ok(o) => r matches Ok(x) && opt_view(x) == o,
            Err(e) => r matches Err(x) && x.0@ == e,
        },
{
    let a = match read_message_field(c, 7, 98) {
        Err(e) => return Err(e),
        Ok(None) => return Ok(None),
        Ok(Some(a)) => a,
    };
    let mut known: Vec<u32> = Vec::new();
    known.push(1);
    known.push(2);
    known.push(3);
    known.push(4);
    known.push(5);
    assert(known@ =~= seq![1u32, 2u32, 3u32, 4u32, 5u32]);
    match check_unknown(&a, &known, 97) {
        Err(e) => return Err(e),
        Ok(_) => {},
    }
    let mut scalars: Vec<u32> = Vec::new();
    scalars.push(5);
    assert(scalars@ =~= seq![5u32]);
    let mut strings: Vec<u32> = Vec::new();
    strings.push(1);
    strings.push(4);
    assert(strings@ =~= seq![1u32, 4u32]);
    let mut messages: Vec<u32> = Vec::new();
    assert(messages@ =~= Seq::<u32>::empty());
    match check_declared(&a, &scalars, &strings, &messages, 97) {
        Err(e) => return Err(e),
        Ok(_) => {},
    }
    let d = match read_string_field(&a, 3) {
        Err(e) => return Err(e),
        Ok(d) => d,
    };
    let x = match read_string_field(&a, 2) {
        Err(e) => return Err(e),
        Ok(x) => x,
    };
    match d {
        Some(d) => Ok(Some(d)),
        None => Ok(x),
    }
}

fn exec_read_candidate(c: &Vec<(u32, Wire)>) -> (r: Result<Candidate, DecodeError>)
    ensures
        match read_candidate(wire_fields_view(c@)) {
            Ok(cv) => r matches Ok(x) && x@ == cv,
            Err(e) => r matches Err(x) && x.0@ == e,
        },
{
    let mut known: Vec<u32> = Vec::new();
    known.push(4);
    known.push(5);
    known.push(7);
    known.push(9);
    known.push(10);
    assert(known@ =~= seq![4u32, 5u32, 7u32, 9u32, 10u32]);
    match check_unknown(c, &known, 98) {
        Err(e) => return Err(e),
        Ok(_) => {},
    }
    let mut scalars: Vec<u32> = Vec::new();
    scalars.push(10);
    assert(scalars@ =~= seq![10u32]);
    let mut strings: Vec<u32> = Vec::new();
    assert(strings@ =~= Seq::<u32>::empty());
    let mut messages: Vec<u32> = Vec::new();
    assert(messages@ =~= Seq::<u32>::empty());
    match check_declared(c, &scalars, &strings, &messages, 98) {
        Err(e) => return Err(e),
        Ok(_) => {},
    }
    let index = match read_varint_field(c, 4) {
        Err(e) => return Err(e),
        Ok(v) => v,
    };
    let value = match read_string_field(c, 5) {
        Err(e) => return Err(e),
        Ok(v) => v,
    };
    let id = match read_varint_field(c, 9) {
        Err(e) => return Err(e),
        Ok(v) => v,
    };
    let annotation = match exec_read_annotation(c) {
        Err(e) => return Err(e),
        Ok(a) => a,
    };
    Ok(
        Candidate {
            index: match index {
                Some(x) => #[verifier::truncate] (x as u32),
                None => 0,
            },
            value: or_empty_string(value),
            id: match id {
                Some(x) => Some(#[verifier::truncate] (x as i32)),
                None => None,
            },
            annotation,
        },
    )
}

proof fn lemma_candidates_prefix_error(v: Seq<WireFieldV>, k: int)
    requires
        0 <= k <= v.len(),
        read_candidates(groups_of(v.take(k), 3)) is Err,
    ensures
        read_candidates(groups_of(v, 3)) == read_candidates(groups_of(v.take(k), 3)),
    decreases v.len() - k,
{
    if k < v.len() {
        let t = v.take(k + 1);
        assert(t.drop_last() =~= v.take(k));
        assert(t.last() == v[k]);
        let gs = groups_of(t, 3);
        if v[k].0 == 3 && v[k].1 is Group {
            assert(gs.drop_last() =~= groups_of(v.take(k), 3));
        } else {
            assert(gs == groups_of(v.take(k), 3));
        }
        lemma_candidates_prefix_error(v, k + 1);
    } else {
        assert(v.take(k) =~= v);
    }
}

fn exec_read_window(fs: &Vec<(u32, Wire)>) -> (r: Result<(Vec<Candidate>, Option<u32>, u32), DecodeError>)
    ensures
        match read_window(wire_fields_view(fs@)) {
            Ok(w) => r matches Ok(x) && x.0.deep_view() == w.candidates && x.1 == w.focused_index && x.2 == w.size,
            Err(e) => r matches Err(x) && x.0@ == e,
        },
{
    let w = match read_message_field(fs, 6, 100) {
        Err(e) => return Err(e),
        Ok(None) => {
            let c: Vec<Candidate> = Vec::new();
            assert(c.deep_view() =~= Seq::<CandidateV>::empty());
            return Ok((c, None, 0));
        },
        Ok(Some(w)) => w,
    };
    let mut known: Vec<u32> = Vec::new();
    known.push(1);
    known.push(2);
    known.push(3);
    known.push(6);
    known.push(8);
    known.push(10);
    known.push(11);
    known.push(12);
    known.push(13);
    known.push(14);
    assert(known@ =~= seq![1u32, 2u32, 3u32, 6u32, 8u32, 10u32, 11u32, 12u32, 13u32, 14u32]);
    match check_unknown(&w, &known, 99) {
        Err(e) => return Err(e),
        Ok(_) => {},
    }
    let mut scalars: Vec<u32> = Vec::new();
    scalars.push(6);
    scalars.push(11);
    scalars.push(12);
    scalars.push(14);
    assert(scalars@ =~= seq![6u32, 11u32, 12u32, 14u32]);
    let mut strings: Vec<u32> = Vec::new();
    assert(strings@ =~= Seq::<u32>::empty());
    let mut messages: Vec<u32> = Vec::new();
    messages.push(8);
    messages.push(10);
    messages.push(13);
    assert(messages@ =~= seq![8u32, 10u32, 13u32]);
    match check_declared(&w, &scalars, &strings, &messages, 99) {
        Err(e) => return Err(e),
        Ok(_) => {},
    }
    let f = match read_varint_field(&w, 1) {
        Err(e) => return Err(e),
        Ok(v) => v,
    };
    let size = match read_varint_field(&w, 2) {
        Err(e) => return Err(e),
        Ok(v) => v,
    };
    match check_group_field(&w, 3, 99) {
        Err(e) => return Err(e),
        Ok(_) => {},
    }
    let ghost v = wire_fields_view(w@);
    proof {
        lemma_wire_fields_view(w@);
    }
    let mut cands: Vec<Candidate> = Vec::new();
    let mut i: usize = 0;
    assert(v.take(0) =~= Seq::<WireFieldV>::empty());
    assert(cands.deep_view() =~= Seq::<CandidateV>::empty());
    while i < w.len()
        invariant
            i <= w@.len(),
            v == wire_fields_view(w@),
            v.len() == w@.len(),
            forall|j: int| 0 <= j < w@.len() ==> #[trigger] v[j] == (w@[j].0, wire_view(w@[j].1)),
            read_candidates(groups_of(v.take(i as int), 3)) == Ok::<Seq<CandidateV>, Seq<char>>(cands.deep_view()),
            read_candidates(groups_of(v, 3)) is Err ==> read_window(wire_fields_view(fs@)) == Err::<WindowV, Seq<char>>(
                read_candidates(groups_of(v, 3))->Err_0,
            ),
        decreases w@.len() - i,
    {
        assert(v[i as int] == (w@[i as int].0, wire_view(w@[i as int].1)));
        assert(v.take(i + 1).drop_last() =~= v.take(i as int));
        assert(v.take(i + 1).last() == v[i as int]);
        let ghost gs = groups_of(v.take(i + 1), 3);
        if w[i].0 == 3 {
            match &w[i].1 {
                Wire::Group(g) => {
                    assert(gs.drop_last() =~= groups_of(v.take(i as int), 3));
                    assert(gs.last() == wire_fields_view(g@));
                    match exec_read_candidate(g) {
                        Err(e) => {
                            assert(read_candidates(gs) == Err::<Seq<CandidateV>, Seq<char>>(e.0@));
                            proof {
                                lemma_candidates_prefix_error(v, i + 1);
                            }
                            return Err(e);
                        },
                        Ok(c) => {
                            let ghost before = cands.deep_view();
                            let ghost cv = c@;
                            cands.push(c);
                            assert(cands.deep_view() =~= before.push(cv));
                        },
                    }
                },
                _ => {
                    assert(gs == groups_of(v.take(i as int), 3));
                },
            }
        } else {
            assert(gs == groups_of(v.take(i as int), 3));
        }
        i = i + 1;
    }
    assert(v.take(i as int) =~= v);
    Ok(
        (
            cands,
            match f {
                Some(x) => Some(#[verifier::truncate] (x as u32)),
                None => None,
            },
            match size {
                Some(x) => #[verifier::truncate] (x as u32),
                None => 0,
            },
        ),
    )
}

/// Decode the raw `Output` bytes of a Mozc response.
pub fn decode_response(data: &[u8]) -> (r: Result<DecodedOutput, DecodeError>)
    ensures
        match spec_decode_response(data@) {
            Ok(o) => r matches Ok(d) && d@ == o,
            Err(m) => r matches Err(e) && e.0@ == m,
        },
{
    let fs = match parse_message(data) {
        Err(e) => return Err(e),
        Ok(f) => f,
    };
    let mut known: Vec<u32> = Vec::new();
    known.push(1);
    known.push(2);
    known.push(3);
    known.push(4);
    known.push(5);
    known.push(6);
    known.push(7);
    known.push(8);
    known.push(10);
    known.push(11);
    known.push(12);
    known.push(13);
    known.push(14);
    known.push(16);
    known.push(17);
    assert(known@ =~= seq![1u32, 2u32, 3u32, 4u32, 5u32, 6u32, 7u32, 8u32, 10u32, 11u32, 12u32, 13u32, 14u32, 16u32, 17u32]);
    match check_unknown(&fs, &known, OUTPUT_LEVELS) {
        Err(e) => return Err(e),
        Ok(_) => {},
    }
    let mut scalars: Vec<u32> = Vec::new();
    scalars.push(10);
    scalars.push(11);
    scalars.push(12);
    assert(scalars@ =~= seq![10u32, 11u32, 12u32]);
    let mut strings: Vec<u32> = Vec::new();
    strings.push(8);
    assert(strings@ =~= seq![8u32]);
    let mut messages: Vec<u32> = Vec::new();
    messages.push(7);
    messages.push(13);
    messages.push(14);
    messages.push(16);
    messages.push(17);
    assert(messages@ =~= seq![7u32, 13u32, 14u32, 16u32, 17u32]);
    match check_declared(&fs, &scalars, &strings, &messages, OUTPUT_LEVELS) {
        Err(e) => return Err(e),
        Ok(_) => {},
    }
    let id = match read_varint_field(&fs, 1) {
        Err(e) => return Err(e),
        Ok(v) => v,
    };
    let mode = match read_varint_field(&fs, 2) {
        Err(e) => return Err(e),
        Ok(v) => v,
    };
    let consumed = match read_varint_field(&fs, 3) {
        Err(e) => return Err(e),
        Ok(v) => v,
    };
    let result_value = match exec_read_result(&fs) {
        Err(e) => return Err(e),
        Ok(v) => v,
    };
    let (preedit_text, preedit_has_highlight) = match exec_read_preedit(&fs) {
        Err(e) => return Err(e),
        Ok(v) => v,
    };
    let (candidates, focused_index, candidate_size) = match exec_read_window(&fs) {
        Err(e) => return Err(e),
        Ok(v) => v,
    };
    Ok(
        DecodedOutput {
            session_id: id,
            mode: match mode {
                Some(m) => #[verifier::truncate] (m as i32),
                None => COMPOSITION_DIRECT,
            },
            consumed: match consumed {
                Some(c) => c != 0,
                None => false,
            },
            result_value,
            preedit_text,
            preedit_has_highlight,
            candidates,
            focused_index,
            candidate_size,
        },
    )
}

} // verus!
