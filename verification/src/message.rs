//! Reading protobuf messages by the rules a generated decoder (prost)
//! follows. The bytes are first split into fields: every wire type is read,
//! a field number of 0 and unknown wire types are refused. The fields of a
//! message are then taken by number: a known field given with another wire
//! type is an error, the last value of a scalar field wins, the occurrences
//! of a message field are merged, and unknown fields (fixed-width ones
//! included) are skipped, within a limit on nesting.
use vstd::prelude::*;
use crate::codec::{DecodeError, spec_varint_exact, read_varint_exact, lemma_varint_sum_bounds};
use vstd::slice::{slice_subrange, slice_to_vec};
use vstd::utf8::{valid_utf8, decode_utf8};

verus! {

/// A field value as the wire gives it.
pub enum Wire {
    Varint(u64),
    Bytes(Vec<u8>),
    Group(Vec<(u32, Wire)>),
    Fixed64,
    Fixed32,
}

/// Model of a field value as the wire gives it.
pub enum WireV {
    Varint(u64),
    Bytes(Seq<u8>),
    Group(Seq<(u32, WireV)>),
    Fixed64,
    Fixed32,
}

pub type WireFieldV = (u32, WireV);

pub open spec fn wire_view(w: Wire) -> WireV
    decreases w,
{
    match w {
        Wire::Varint(x) => WireV::Varint(x),
        Wire::Bytes(b) => WireV::Bytes(b@),
        Wire::Group(g) => WireV::Group(wire_fields_view(g@)),
        Wire::Fixed64 => WireV::Fixed64,
        Wire::Fixed32 => WireV::Fixed32,
    }
}

pub open spec fn wire_fields_view(s: Seq<(u32, Wire)>) -> Seq<WireFieldV>
    decreases s,
{
    if s.len() == 0 {
        Seq::empty()
    } else {
        wire_fields_view(s.drop_last()).push((s.last().0, wire_view(s.last().1)))
    }
}

pub proof fn lemma_wire_fields_view(s: Seq<(u32, Wire)>)
    ensures
        wire_fields_view(s).len() == s.len(),
        forall|i: int| 0 <= i < s.len() ==> #[trigger] wire_fields_view(s)[i] == (s[i].0, wire_view(s[i].1)),
    decreases s.len(),
{
    if s.len() > 0 {
        lemma_wire_fields_view(s.drop_last());
    }
}

proof fn lemma_wire_fields_view_push(s: Seq<(u32, Wire)>, f: (u32, Wire))
    ensures
        wire_fields_view(s.push(f)) == wire_fields_view(s).push((f.0, wire_view(f.1))),
{
    assert(s.push(f).drop_last() =~= s);
}

pub open spec fn wire_prepend(
    pre: Seq<WireFieldV>,
    r: Result<(Seq<WireFieldV>, int), Seq<char>>,
) -> Result<(Seq<WireFieldV>, int), Seq<char>> {
    match r {
        Ok((fs, e)) => Ok((pre + fs, e)),
        Err(m) => Err(m),
    }
}

/// The fields of `data[pos..]`, up to the end of the data or, when
/// `end_group` is set, up to the end-group key of that field; and the
/// position after them. A key must fit in 32 bits, name a field other than 0
/// and a wire type up to 5; fixed-width values are skipped over.
pub open spec fn spec_parse_from(data: Seq<u8>, pos: int, end_group: Option<u32>) -> Result<
    (Seq<WireFieldV>, int),
    Seq<char>,
>
    decreases data.len() - pos,
{
    if pos >= data.len() {
        if end_group is Some {
            Err("missing end-group tag"@)
        } else {
            Ok((Seq::empty(), pos))
        }
    } else {
        match spec_varint_exact(data, pos) {
            Err(m) => Err(m),
            Ok((key, p1)) => if p1 <= pos || p1 > data.len() {
                Err(Seq::empty())
            } else if key > 0xffff_ffff {
                Err("invalid key value"@)
            } else if key % 8 > 5 {
                Err("invalid wire type value"@)
            } else if key / 8 == 0 {
                Err("invalid tag value: 0"@)
            } else {
                let field = #[verifier::truncate] ((key / 8) as u32);
                let wire = key % 8;
                if wire == 0 {
                    match spec_varint_exact(data, p1) {
                        Err(m) => Err(m),
                        Ok((v, p2)) => if p2 <= pos || p2 > data.len() {
                            Err(Seq::empty())
                        } else {
                            wire_prepend(seq![(field, WireV::Varint(v))], spec_parse_from(data, p2, end_group))
                        },
                    }
                } else if wire == 1 {
                    if p1 + 8 > data.len() {
                        Err("buffer underflow"@)
                    } else {
                        wire_prepend(seq![(field, WireV::Fixed64)], spec_parse_from(data, p1 + 8, end_group))
                    }
                } else if wire == 2 {
                    match spec_varint_exact(data, p1) {
                        Err(m) => Err(m),
                        Ok((len, p2)) => if p2 < 0 || p2 + len > data.len() {
                            Err("buffer underflow"@)
                        } else if p2 + len <= pos {
                            Err(Seq::empty())
                        } else {
                            wire_prepend(
                                seq![(field, WireV::Bytes(data.subrange(p2, p2 + len)))],
                                spec_parse_from(data, p2 + len, end_group),
                            )
                        },
                    }
                } else if wire == 3 {
                    match spec_parse_from(data, p1, Some(field)) {
                        Err(m) => Err(m),
                        Ok((g, p2)) => if p2 <= pos || p2 > data.len() {
                            Err(Seq::empty())
                        } else {
                            wire_prepend(seq![(field, WireV::Group(g))], spec_parse_from(data, p2, end_group))
                        },
                    }
                } else if wire == 4 {
                    if end_group == Some(field) {
                        Ok((Seq::empty(), p1))
                    } else {
                        Err("unexpected end group tag"@)
                    }
                } else {
                    if p1 + 4 > data.len() {
                        Err("buffer underflow"@)
                    } else {
                        wire_prepend(seq![(field, WireV::Fixed32)], spec_parse_from(data, p1 + 4, end_group))
                    }
                }
            },
        }
    }
}

/// The fields of a whole message.
pub open spec fn spec_parse(data: Seq<u8>) -> Result<Seq<WireFieldV>, Seq<char>> {
    match spec_parse_from(data, 0, None) {
        Ok((fs, _)) => Ok(fs),
        Err(m) => Err(m),
    }
}

proof fn lemma_wire_prepend_assoc(a: Seq<WireFieldV>, b: Seq<WireFieldV>, r: Result<(Seq<WireFieldV>, int), Seq<char>>)
    ensures
        wire_prepend(a, wire_prepend(b, r)) == wire_prepend(a + b, r),
{
    if let Ok((fs, e)) = r {
        assert((a + b) + fs =~= a + (b + fs));
    }
}

proof fn lemma_parse_from_bounds(data: Seq<u8>, pos: int, end_group: Option<u32>)
    requires
        0 <= pos <= data.len(),
    ensures
        spec_parse_from(data, pos, end_group) matches Ok((fs, e)) ==> pos <= e <= data.len(),
    decreases data.len() - pos,
{
    if pos < data.len() {
        if let Ok((key, p1)) = spec_varint_exact(data, pos) {
            if p1 > pos && p1 <= data.len() && key <= 0xffff_ffff && key % 8 <= 5 && key / 8 != 0 {
                let field = #[verifier::truncate] ((key / 8) as u32);
                let wire = key % 8;
                if wire == 0 {
                    if let Ok((v, p2)) = spec_varint_exact(data, p1) {
                        if p2 > pos && p2 <= data.len() {
                            lemma_parse_from_bounds(data, p2, end_group);
                        }
                    }
                } else if wire == 1 {
                    if p1 + 8 <= data.len() {
                        lemma_parse_from_bounds(data, p1 + 8, end_group);
                    }
                } else if wire == 2 {
                    if let Ok((len, p2)) = spec_varint_exact(data, p1) {
                        if 0 <= p2 && p2 + len <= data.len() && p2 + len > pos {
                            lemma_parse_from_bounds(data, p2 + len, end_group);
                        }
                    }
                } else if wire == 3 {
                    lemma_parse_from_bounds(data, p1, Some(field));
                    if let Ok((g, p2)) = spec_parse_from(data, p1, Some(field)) {
                        if p2 > pos && p2 <= data.len() {
                            lemma_parse_from_bounds(data, p2, end_group);
                        }
                    }
                } else if wire == 5 {
                    if p1 + 4 <= data.len() {
                        lemma_parse_from_bounds(data, p1 + 4, end_group);
                    }
                }
            }
        }
    }
}

proof fn lemma_exact_bounds(data: Seq<u8>, pos: int)
    ensures
        spec_varint_exact(data, pos) matches Ok((v, e)) ==> pos < e <= data.len(),
{
    lemma_varint_sum_bounds(data, pos, 0);
}

/// Push one field onto `fields` and carry the parse invariant over it.
fn push_field(
    fields: &mut Vec<(u32, Wire)>,
    f: (u32, Wire),
    Ghost(data): Ghost<Seq<u8>>,
    Ghost(start): Ghost<int>,
    Ghost(p0): Ghost<int>,
    Ghost(p): Ghost<int>,
    Ghost(eg): Ghost<Option<u32>>,
)
    requires
        spec_parse_from(data, start, eg) == wire_prepend(
            wire_fields_view(old(fields)@),
            spec_parse_from(data, p0, eg),
        ),
        spec_parse_from(data, p0, eg) == wire_prepend(seq![(f.0, wire_view(f.1))], spec_parse_from(data, p, eg)),
    ensures
        spec_parse_from(data, start, eg) == wire_prepend(wire_fields_view(final(fields)@), spec_parse_from(data, p, eg)),
{
    let ghost fv0 = wire_fields_view(fields@);
    let ghost old_fields = fields@;
    let ghost fw = (f.0, wire_view(f.1));
    fields.push(f);
    proof {
        assert(fields@ =~= old_fields.push(f));
        lemma_wire_fields_view_push(old_fields, f);
        assert(fv0.push(fw) =~= fv0 + seq![fw]);
        lemma_wire_prepend_assoc(fv0, seq![fw], spec_parse_from(data, p, eg));
    }
}

/// Parse the fields of `data[pos..]` (see `spec_parse_from`).
fn parse_into(data: &[u8], pos: &mut usize, end_group: Option<u32>) -> (r: Result<Vec<(u32, Wire)>, DecodeError>)
    requires
        *old(pos) <= data.len(),
    ensures
        match spec_parse_from(data@, *old(pos) as int, end_group) {
            Ok((fs, e)) => r matches Ok(v) && wire_fields_view(v@) == fs && *final(pos) == e,
            Err(m) => r matches Err(er) && er.0@ == m,
        },
    decreases data.len() - *old(pos),
{
    let ghost start = *pos as int;
    let mut fields: Vec<(u32, Wire)> = Vec::new();
    assert(wire_fields_view(fields@) =~= Seq::<WireFieldV>::empty());
    assert(wire_prepend(Seq::empty(), spec_parse_from(data@, *pos as int, end_group)) == spec_parse_from(
        data@,
        *pos as int,
        end_group,
    )) by {
        if let Ok((fs, e)) = spec_parse_from(data@, *pos as int, end_group) {
            assert(Seq::<WireFieldV>::empty() + fs =~= fs);
        }
    }
    while *pos < data.len()
        invariant
            start <= *pos <= data.len(),
            start == *old(pos) as int,
            spec_parse_from(data@, start, end_group) == wire_prepend(
                wire_fields_view(fields@),
                spec_parse_from(data@, *pos as int, end_group),
            ),
        decreases data.len() - *pos,
    {
        let ghost p0 = *pos as int;
        let key = match read_varint_exact(data, pos) {
            Ok(k) => k,
            Err(e) => return Err(e),
        };
        proof {
            lemma_exact_bounds(data@, p0);
        }
        if key > 0xffff_ffff {
            return Err(DecodeError(String::from_str("invalid key value")));
        }
        if key % 8 > 5 {
            return Err(DecodeError(String::from_str("invalid wire type value")));
        }
        if key / 8 == 0 {
            return Err(DecodeError(String::from_str("invalid tag value: 0")));
        }
        let field = #[verifier::truncate] ((key / 8) as u32);
        let wire = key % 8;
        let ghost p1 = *pos as int;
        if wire == 0 {
            let v = match read_varint_exact(data, pos) {
                Ok(v) => v,
                Err(e) => return Err(e),
            };
            proof {
                lemma_exact_bounds(data@, p1);
            }
            push_field(&mut fields, (field, Wire::Varint(v)), Ghost(data@), Ghost(start), Ghost(p0), Ghost(*pos as int), Ghost(end_group));
        } else if wire == 1 {
            if data.len() - *pos < 8 {
                return Err(DecodeError(String::from_str("buffer underflow")));
            }
            *pos = *pos + 8;
            push_field(&mut fields, (field, Wire::Fixed64), Ghost(data@), Ghost(start), Ghost(p0), Ghost(*pos as int), Ghost(end_group));
        } else if wire == 2 {
            let len = match read_varint_exact(data, pos) {
                Ok(v) => v,
                Err(e) => return Err(e),
            };
            proof {
                lemma_exact_bounds(data@, p1);
            }
            if len > (data.len() - *pos) as u64 {
                return Err(DecodeError(String::from_str("buffer underflow")));
            }
            let end = *pos + len as usize;
            let bytes = slice_to_vec(slice_subrange(data, *pos, end));
            let ghost bv = data@.subrange(*pos as int, end as int);
            assert(bytes@ == bv);
            *pos = end;
            push_field(&mut fields, (field, Wire::Bytes(bytes)), Ghost(data@), Ghost(start), Ghost(p0), Ghost(*pos as int), Ghost(end_group));
        } else if wire == 3 {
            let nested = match parse_into(data, pos, Some(field)) {
                Ok(n) => n,
                Err(e) => return Err(e),
            };
            proof {
                lemma_parse_from_bounds(data@, p1, Some(field));
            }
            push_field(&mut fields, (field, Wire::Group(nested)), Ghost(data@), Ghost(start), Ghost(p0), Ghost(*pos as int), Ghost(end_group));
        } else if wire == 4 {
            match end_group {
                Some(g) => {
                    if g == field {
                        proof {
                            assert(wire_fields_view(fields@) + Seq::<WireFieldV>::empty() =~= wire_fields_view(fields@));
                        }
                        return Ok(fields);
                    }
                },
                None => {},
            }
            return Err(DecodeError(String::from_str("unexpected end group tag")));
        } else {
            if data.len() - *pos < 4 {
                return Err(DecodeError(String::from_str("buffer underflow")));
            }
            *pos = *pos + 4;
            push_field(&mut fields, (field, Wire::Fixed32), Ghost(data@), Ghost(start), Ghost(p0), Ghost(*pos as int), Ghost(end_group));
        }
    }
    match end_group {
        Some(_) => Err(DecodeError(String::from_str("missing end-group tag"))),
        None => {
            assert(wire_fields_view(fields@) + Seq::<WireFieldV>::empty() =~= wire_fields_view(fields@));
            Ok(fields)
        },
    }
}

/// Parse the fields of a whole message (see `spec_parse`).
pub fn parse_message(data: &[u8]) -> (r: Result<Vec<(u32, Wire)>, DecodeError>)
    ensures
        match spec_parse(data@) {
            Ok(fs) => r matches Ok(v) && wire_fields_view(v@) == fs,
            Err(m) => r matches Err(e) && e.0@ == m,
        },
{
    let mut pos: usize = 0;
    parse_into(data, &mut pos, None)
}

} // verus!

verus! {

// ── Taking the fields of a message by number ─────────────────────────────────

/// The wire type a value was read with.
pub open spec fn wire_kind(v: WireV) -> u64 {
    match v {
        WireV::Varint(_) => 0,
        WireV::Fixed64 => 1,
        WireV::Bytes(_) => 2,
        WireV::Group(_) => 3,
        WireV::Fixed32 => 5,
    }
}

/// Every field numbered `n` was read with wire type `k`.
pub open spec fn all_kind(fs: Seq<WireFieldV>, n: u32, k: u64) -> bool {
    forall|i: int| 0 <= i < fs.len() && (#[trigger] fs[i]).0 == n ==> wire_kind(fs[i].1) == k
}

/// The value of the last varint field numbered `n`.
pub open spec fn last_varint(fs: Seq<WireFieldV>, n: u32) -> Option<u64>
    decreases fs.len(),
{
    if fs.len() == 0 {
        None
    } else if fs.last().0 == n && fs.last().1 is Varint {
        Some(fs.last().1->Varint_0)
    } else {
        last_varint(fs.drop_last(), n)
    }
}

/// The bytes of the last length-delimited field numbered `n`.
pub open spec fn last_bytes(fs: Seq<WireFieldV>, n: u32) -> Option<Seq<u8>>
    decreases fs.len(),
{
    if fs.len() == 0 {
        None
    } else if fs.last().0 == n && fs.last().1 is Bytes {
        Some(fs.last().1->Bytes_0)
    } else {
        last_bytes(fs.drop_last(), n)
    }
}

/// The bytes of every length-delimited field numbered `n`, in order.
pub open spec fn bytes_of(fs: Seq<WireFieldV>, n: u32) -> Seq<Seq<u8>>
    decreases fs.len(),
{
    if fs.len() == 0 {
        Seq::empty()
    } else if fs.last().0 == n && fs.last().1 is Bytes {
        bytes_of(fs.drop_last(), n).push(fs.last().1->Bytes_0)
    } else {
        bytes_of(fs.drop_last(), n)
    }
}

/// The fields of every group numbered `n`, in order.
pub open spec fn groups_of(fs: Seq<WireFieldV>, n: u32) -> Seq<Seq<WireFieldV>>
    decreases fs.len(),
{
    if fs.len() == 0 {
        Seq::empty()
    } else if fs.last().0 == n && fs.last().1 is Group {
        groups_of(fs.drop_last(), n).push(fs.last().1->Group_0)
    } else {
        groups_of(fs.drop_last(), n)
    }
}

/// Every length-delimited field numbered `n` holds UTF-8.
pub open spec fn strings_valid(fs: Seq<WireFieldV>, n: u32) -> bool {
    forall|i: int|
        0 <= i < fs.len() && (#[trigger] fs[i]).0 == n && fs[i].1 is Bytes ==> valid_utf8(fs[i].1->Bytes_0)
}

/// Whether a field nobody asked for can be skipped with `c` levels of
/// nesting left: skipping takes a level, and a group's own fields one more.
pub open spec fn skippable(v: WireV, c: nat) -> bool
    decreases c, 0nat, 0int,
{
    c > 0 && match v {
        WireV::Group(g) => skippable_all(g, (c - 1) as nat, g.len() as int),
        _ => true,
    }
}

/// Whether the first `k` fields of `g` can be skipped with `c` levels left.
pub open spec fn skippable_all(g: Seq<WireFieldV>, c: nat, k: int) -> bool
    decreases c, 1nat, k,
{
    if k <= 0 || k > g.len() {
        true
    } else {
        skippable_all(g, c, k - 1) && skippable(g[k - 1].1, c)
    }
}

/// Every field whose number is not in `known` can be skipped.
pub open spec fn unknown_ok(fs: Seq<WireFieldV>, known: Seq<u32>, c: nat) -> bool {
    forall|i: int| 0 <= i < fs.len() && !known.contains((#[trigger] fs[i]).0) ==> skippable(fs[i].1, c)
}

/// The fields of the messages in `parts`, one after the other: what merging
/// the occurrences of one message field gives.
pub open spec fn merged(parts: Seq<Seq<u8>>) -> Result<Seq<WireFieldV>, Seq<char>>
    decreases parts.len(),
{
    if parts.len() == 0 {
        Ok(Seq::empty())
    } else {
        match merged(parts.drop_last()) {
            Err(m) => Err(m),
            Ok(a) => match spec_parse(parts.last()) {
                Err(m) => Err(m),
                Ok(b) => Ok(a + b),
            },
        }
    }
}

pub open spec fn wrong_wire_type() -> Seq<char> {
    "invalid wire type"@
}

pub open spec fn recursion_limit() -> Seq<char> {
    "recursion limit reached"@
}

pub open spec fn not_utf8() -> Seq<char> {
    "invalid string value: data is not UTF-8 encoded"@
}

/// A varint field: every occurrence a varint; the last value.
pub open spec fn varint_field(fs: Seq<WireFieldV>, n: u32) -> Result<Option<u64>, Seq<char>> {
    if !all_kind(fs, n, 0) {
        Err(wrong_wire_type())
    } else {
        Ok(last_varint(fs, n))
    }
}

/// A string field: every occurrence length-delimited UTF-8; the last text.
pub open spec fn string_field(fs: Seq<WireFieldV>, n: u32) -> Result<Option<Seq<char>>, Seq<char>> {
    if !all_kind(fs, n, 2) {
        Err(wrong_wire_type())
    } else if !strings_valid(fs, n) {
        Err(not_utf8())
    } else {
        Ok(
            match last_bytes(fs, n) {
                Some(b) => Some(decode_utf8(b)),
                None => None,
            },
        )
    }
}

/// A message field read with `c` levels of nesting left: every occurrence
/// length-delimited, their fields merged.
pub open spec fn message_field(fs: Seq<WireFieldV>, n: u32, c: nat) -> Result<Option<Seq<WireFieldV>>, Seq<char>> {
    if !all_kind(fs, n, 2) {
        Err(wrong_wire_type())
    } else if bytes_of(fs, n).len() == 0 {
        Ok(None)
    } else if c == 0 {
        Err(recursion_limit())
    } else {
        match merged(bytes_of(fs, n)) {
            Ok(m) => Ok(Some(m)),
            Err(e) => Err(e),
        }
    }
}

/// A repeated group field read with `c` levels of nesting left.
pub open spec fn group_field(fs: Seq<WireFieldV>, n: u32, c: nat) -> Result<Seq<Seq<WireFieldV>>, Seq<char>> {
    if !all_kind(fs, n, 3) {
        Err(wrong_wire_type())
    } else if groups_of(fs, n).len() > 0 && c == 0 {
        Err(recursion_limit())
    } else {
        Ok(groups_of(fs, n))
    }
}

/// The unknown fields check of a message read with `c` levels left.
pub open spec fn unknown_check(fs: Seq<WireFieldV>, known: Seq<u32>, c: nat) -> Result<(), Seq<char>> {
    if unknown_ok(fs, known, c) {
        Ok(())
    } else {
        Err(recursion_limit())
    }
}

/// The varint fields `ns` of a message's schema, checked in order.
pub open spec fn scalars_check(fs: Seq<WireFieldV>, ns: Seq<u32>) -> Result<(), Seq<char>>
    decreases ns.len(),
{
    if ns.len() == 0 {
        Ok(())
    } else {
        match scalars_check(fs, ns.drop_last()) {
            Err(e) => Err(e),
            Ok(_) => match varint_field(fs, ns.last()) {
                Err(e) => Err(e),
                Ok(_) => Ok(()),
            },
        }
    }
}

/// The string fields `ns` of a message's schema, checked in order.
pub open spec fn strings_check(fs: Seq<WireFieldV>, ns: Seq<u32>) -> Result<(), Seq<char>>
    decreases ns.len(),
{
    if ns.len() == 0 {
        Ok(())
    } else {
        match strings_check(fs, ns.drop_last()) {
            Err(e) => Err(e),
            Ok(_) => match string_field(fs, ns.last()) {
                Err(e) => Err(e),
                Ok(_) => Ok(()),
            },
        }
    }
}

/// The embedded message fields `ns` of a message's schema, read with `c`
/// levels of nesting left, checked in order.
pub open spec fn messages_check(fs: Seq<WireFieldV>, ns: Seq<u32>, c: nat) -> Result<(), Seq<char>>
    decreases ns.len(),
{
    if ns.len() == 0 {
        Ok(())
    } else {
        match messages_check(fs, ns.drop_last(), c) {
            Err(e) => Err(e),
            Ok(_) => match message_field(fs, ns.last(), c) {
                Err(e) => Err(e),
                Ok(_) => Ok(()),
            },
        }
    }
}

/// The fields a message's schema declares but the reader does not use are
/// decoded all the same: varint fields, string fields and embedded messages
/// (the message fields read with `c` levels left).
pub open spec fn declared_check(
    fs: Seq<WireFieldV>,
    scalars: Seq<u32>,
    strings: Seq<u32>,
    messages: Seq<u32>,
    c: nat,
) -> Result<(), Seq<char>> {
    match scalars_check(fs, scalars) {
        Err(e) => Err(e),
        Ok(_) => match strings_check(fs, strings) {
            Err(e) => Err(e),
            Ok(_) => messages_check(fs, messages, c),
        },
    }
}

} // verus!

verus! {

// ── Executable field lookups ─────────────────────────────────────────────────

fn wire_kind_of(v: &Wire) -> (k: u64)
    ensures
        k == wire_kind(wire_view(*v)),
{
    match v {
        Wire::Varint(_) => 0,
        Wire::Fixed64 => 1,
        Wire::Bytes(_) => 2,
        Wire::Group(_) => 3,
        Wire::Fixed32 => 5,
    }
}

/// Whether every field numbered `n` was read with wire type `k`.
fn kinds_ok(fs: &Vec<(u32, Wire)>, n: u32, k: u64) -> (r: bool)
    ensures
        r == all_kind(wire_fields_view(fs@), n, k),
{
    let ghost v = wire_fields_view(fs@);
    proof {
        lemma_wire_fields_view(fs@);
    }
    let mut i: usize = 0;
    while i < fs.len()
        invariant
            i <= fs@.len(),
            v == wire_fields_view(fs@),
            v.len() == fs@.len(),
            forall|j: int| 0 <= j < i && (#[trigger] v[j]).0 == n ==> wire_kind(v[j].1) == k,
        decreases fs@.len() - i,
    {
        proof {
            lemma_wire_fields_view(fs@);
        }
        assert(v[i as int] == (fs@[i as int].0, wire_view(fs@[i as int].1)));
        if fs[i].0 == n && wire_kind_of(&fs[i].1) != k {
            return false;
        }
        i = i + 1;
    }
    true
}

/// The value of the last varint field numbered `n`.
fn last_varint_of(fs: &Vec<(u32, Wire)>, n: u32) -> (r: Option<u64>)
    ensures
        r == last_varint(wire_fields_view(fs@), n),
{
    let ghost v = wire_fields_view(fs@);
    proof {
        lemma_wire_fields_view(fs@);
    }
    let mut r: Option<u64> = None;
    let mut i: usize = 0;
    assert(v.take(0) =~= Seq::<WireFieldV>::empty());
    while i < fs.len()
        invariant
            i <= fs@.len(),
            v == wire_fields_view(fs@),
            v.len() == fs@.len(),
            r == last_varint(v.take(i as int), n),
        decreases fs@.len() - i,
    {
        proof {
            lemma_wire_fields_view(fs@);
        }
        assert(v[i as int] == (fs@[i as int].0, wire_view(fs@[i as int].1)));
        assert(v.take(i + 1).drop_last() =~= v.take(i as int));
        assert(v.take(i + 1).last() == v[i as int]);
        if fs[i].0 == n {
            match &fs[i].1 {
                Wire::Varint(x) => {
                    r = Some(*x);
                },
                _ => {},
            }
        }
        i = i + 1;
    }
    assert(v.take(i as int) =~= v);
    r
}

/// The bytes of the last length-delimited field numbered `n`.
fn last_bytes_of(fs: &Vec<(u32, Wire)>, n: u32) -> (r: Option<Vec<u8>>)
    ensures
        match last_bytes(wire_fields_view(fs@), n) {
            Some(b) => r matches Some(x) && x@ == b,
            None => r is None,
        },
{
    let ghost v = wire_fields_view(fs@);
    proof {
        lemma_wire_fields_view(fs@);
    }
    let mut r: Option<usize> = None;
    let mut i: usize = 0;
    assert(v.take(0) =~= Seq::<WireFieldV>::empty());
    while i < fs.len()
        invariant
            i <= fs@.len(),
            v == wire_fields_view(fs@),
            v.len() == fs@.len(),
            match last_bytes(v.take(i as int), n) {
                Some(b) => r matches Some(k) && (k < i && (fs@[k as int].1 matches Wire::Bytes(x) && x@ == b)),
                None => r is None,
            },
        decreases fs@.len() - i,
    {
        proof {
            lemma_wire_fields_view(fs@);
        }
        assert(v[i as int] == (fs@[i as int].0, wire_view(fs@[i as int].1)));
        assert(v.take(i + 1).drop_last() =~= v.take(i as int));
        assert(v.take(i + 1).last() == v[i as int]);
        if fs[i].0 == n {
            match &fs[i].1 {
                Wire::Bytes(_) => {
                    r = Some(i);
                },
                _ => {},
            }
        }
        i = i + 1;
    }
    assert(v.take(i as int) =~= v);
    match r {
        Some(k) => match &fs[k].1 {
            Wire::Bytes(b) => Some(slice_to_vec(b.as_slice())),
            _ => None,
        },
        None => None,
    }
}

/// Whether every length-delimited field numbered `n` holds UTF-8.
fn strings_valid_of(fs: &Vec<(u32, Wire)>, n: u32) -> (r: bool)
    ensures
        r == strings_valid(wire_fields_view(fs@), n),
{
    let ghost v = wire_fields_view(fs@);
    proof {
        lemma_wire_fields_view(fs@);
    }
    let mut i: usize = 0;
    while i < fs.len()
        invariant
            i <= fs@.len(),
            v == wire_fields_view(fs@),
            v.len() == fs@.len(),
            forall|j: int|
                0 <= j < i && (#[trigger] v[j]).0 == n && v[j].1 is Bytes ==> valid_utf8(v[j].1->Bytes_0),
        decreases fs@.len() - i,
    {
        proof {
            lemma_wire_fields_view(fs@);
        }
        assert(v[i as int] == (fs@[i as int].0, wire_view(fs@[i as int].1)));
        if fs[i].0 == n {
            match &fs[i].1 {
                Wire::Bytes(b) => {
                    if crate::proto::utf8_string(b.as_slice()).is_none() {
                        return false;
                    }
                },
                _ => {},
            }
        }
        i = i + 1;
    }
    true
}

/// Whether a field can be skipped with `c` levels of nesting left.
fn skippable_of(w: &Wire, c: u32) -> (r: bool)
    ensures
        r == skippable(wire_view(*w), c as nat),
    decreases c,
{
    if c == 0 {
        return false;
    }
    match w {
        Wire::Group(g) => {
            let ghost v = wire_fields_view(g@);
            proof {
                lemma_wire_fields_view(g@);
            }
            assert(wire_view(*w) == WireV::Group(v));
            let mut i: usize = 0;
            while i < g.len()
                invariant
                    i <= g@.len(),
                    c > 0,
                    v == wire_fields_view(g@),
                    v.len() == g@.len(),
                    skippable_all(v, (c - 1) as nat, i as int),
                    wire_view(*w) == WireV::Group(v),
                decreases g@.len() - i,
            {
                proof {
                    lemma_wire_fields_view(g@);
                }
                assert(v[i as int] == (g@[i as int].0, wire_view(g@[i as int].1)));
                if !skippable_of(&g[i].1, c - 1) {
                    proof {
                        lemma_skippable_all_prefix(v, (c - 1) as nat, i + 1);
                    }
                    return false;
                }
                i = i + 1;
            }
            true
        },
        _ => true,
    }
}

proof fn lemma_skippable_all_prefix(g: Seq<WireFieldV>, c: nat, k: int)
    requires
        0 < k <= g.len(),
        !skippable_all(g, c, k),
    ensures
        !skippable_all(g, c, g.len() as int),
    decreases g.len() - k,
{
    if k < g.len() {
        lemma_skippable_all_prefix(g, c, k + 1);
    }
}

/// Whether every field whose number is not in `known` can be skipped.
fn unknown_ok_of(fs: &Vec<(u32, Wire)>, known: &Vec<u32>, c: u32) -> (r: bool)
    ensures
        r == unknown_ok(wire_fields_view(fs@), known@, c as nat),
{
    let ghost v = wire_fields_view(fs@);
    proof {
        lemma_wire_fields_view(fs@);
    }
    let mut i: usize = 0;
    while i < fs.len()
        invariant
            i <= fs@.len(),
            v == wire_fields_view(fs@),
            v.len() == fs@.len(),
            forall|j: int| 0 <= j < i && !known@.contains((#[trigger] v[j]).0) ==> skippable(v[j].1, c as nat),
        decreases fs@.len() - i,
    {
        proof {
            lemma_wire_fields_view(fs@);
        }
        assert(v[i as int] == (fs@[i as int].0, wire_view(fs@[i as int].1)));
        let mut is_known = false;
        let mut k: usize = 0;
        while k < known.len()
            invariant
                k <= known@.len(),
                i < fs@.len(),
                is_known == (exists|m: int| 0 <= m < k && known@[m] == fs@[i as int].0),
            decreases known@.len() - k,
        {
            if known[k] == fs[i].0 {
                is_known = true;
            }
            k = k + 1;
        }
        if !is_known && !skippable_of(&fs[i].1, c) {
            return false;
        }
        i = i + 1;
    }
    true
}

/// The fields of every length-delimited field numbered `n`, merged.
fn merged_of(fs: &Vec<(u32, Wire)>, n: u32) -> (r: Result<Vec<(u32, Wire)>, DecodeError>)
    ensures
        match merged(bytes_of(wire_fields_view(fs@), n)) {
            Ok(m) => r matches Ok(x) && wire_fields_view(x@) == m,
            Err(e) => r matches Err(x) && x.0@ == e,
        },
{
    let ghost v = wire_fields_view(fs@);
    proof {
        lemma_wire_fields_view(fs@);
    }
    let mut r: Vec<(u32, Wire)> = Vec::new();
    let mut i: usize = 0;
    assert(v.take(0) =~= Seq::<WireFieldV>::empty());
    assert(wire_fields_view(r@) =~= Seq::<WireFieldV>::empty());
    while i < fs.len()
        invariant
            i <= fs@.len(),
            v == wire_fields_view(fs@),
            v.len() == fs@.len(),
            merged(bytes_of(v.take(i as int), n)) == Ok::<Seq<WireFieldV>, Seq<char>>(wire_fields_view(r@)),
        decreases fs@.len() - i,
    {
        proof {
            lemma_wire_fields_view(fs@);
        }
        assert(v[i as int] == (fs@[i as int].0, wire_view(fs@[i as int].1)));
        assert(v.take(i + 1).drop_last() =~= v.take(i as int));
        assert(v.take(i + 1).last() == v[i as int]);
        if fs[i].0 == n {
            match &fs[i].1 {
                Wire::Bytes(b) => {
                    let ghost parts = bytes_of(v.take(i + 1), n);
                    assert(parts.drop_last() =~= bytes_of(v.take(i as int), n));
                    assert(parts.last() == b@);
                    let mut more = match parse_message(b.as_slice()) {
                        Ok(m) => m,
                        Err(e) => {
                            proof {
                                lemma_merged_prefix_error(bytes_of(v, n), v, n, i + 1);
                            }
                            return Err(e);
                        },
                    };
                    let ghost a = wire_fields_view(r@);
                    let ghost mv = wire_fields_view(more@);
                    let ghost ro = r@;
                    let ghost mo = more@;
                    r.append(&mut more);
                    proof {
                        assert(r@ =~= ro + mo);
                        lemma_wire_fields_view_append(ro, mo);
                    }
                },
                _ => {},
            }
        }
        i = i + 1;
    }
    assert(v.take(i as int) =~= v);
    Ok(r)
}

proof fn lemma_wire_fields_view_append(a: Seq<(u32, Wire)>, b: Seq<(u32, Wire)>)
    ensures
        wire_fields_view(a + b) == wire_fields_view(a) + wire_fields_view(b),
    decreases b.len(),
{
    if b.len() == 0 {
        assert(a + b =~= a);
        assert(wire_fields_view(a) + wire_fields_view(b) =~= wire_fields_view(a));
    } else {
        lemma_wire_fields_view_append(a, b.drop_last());
        assert((a + b).drop_last() =~= a + b.drop_last());
        assert(wire_fields_view(a) + wire_fields_view(b.drop_last()).push((b.last().0, wire_view(b.last().1)))
            =~= (wire_fields_view(a) + wire_fields_view(b.drop_last())).push((b.last().0, wire_view(b.last().1))));
    }
}

/// Once the parts up to `k` fail to merge, all of them do, with that error.
proof fn lemma_merged_prefix_error(all: Seq<Seq<u8>>, v: Seq<WireFieldV>, n: u32, k: int)
    requires
        all == bytes_of(v, n),
        0 <= k <= v.len(),
        merged(bytes_of(v.take(k), n)) is Err,
    ensures
        merged(all) == merged(bytes_of(v.take(k), n)),
    decreases v.len() - k,
{
    if k < v.len() {
        let t = v.take(k + 1);
        assert(t.drop_last() =~= v.take(k));
        assert(t.last() == v[k]);
        let p = bytes_of(t, n);
        if v[k].0 == n && v[k].1 is Bytes {
            assert(p.drop_last() =~= bytes_of(v.take(k), n));
        } else {
            assert(p == bytes_of(v.take(k), n));
        }
        lemma_merged_prefix_error(all, v, n, k + 1);
    } else {
        assert(v.take(k) =~= v);
    }
}

// ── Reading fields ───────────────────────────────────────────────────────────

fn wire_error() -> (e: DecodeError)
    ensures
        e.0@ == wrong_wire_type(),
{
    DecodeError(String::from_str("invalid wire type"))
}

fn limit_error() -> (e: DecodeError)
    ensures
        e.0@ == recursion_limit(),
{
    DecodeError(String::from_str("recursion limit reached"))
}

/// Read a varint field (see `varint_field`).
pub fn read_varint_field(fs: &Vec<(u32, Wire)>, n: u32) -> (r: Result<Option<u64>, DecodeError>)
    ensures
        match varint_field(wire_fields_view(fs@), n) {
            Ok(o) => r matches Ok(x) && x == o,
            Err(e) => r matches Err(x) && x.0@ == e,
        },
{
    if !kinds_ok(fs, n, 0) {
        return Err(wire_error());
    }
    Ok(last_varint_of(fs, n))
}

/// Read a string field (see `string_field`).
pub fn read_string_field(fs: &Vec<(u32, Wire)>, n: u32) -> (r: Result<Option<String>, DecodeError>)
    ensures
        match string_field(wire_fields_view(fs@), n) {
            Ok(o) => r matches Ok(x) && match x {
                Some(s) => o == Some(s@),
                None => o is None,
            },
            Err(e) => r matches Err(x) && x.0@ == e,
        },
{
    if !kinds_ok(fs, n, 2) {
        return Err(wire_error());
    }
    if !strings_valid_of(fs, n) {
        return Err(DecodeError(String::from_str("invalid string value: data is not UTF-8 encoded")));
    }
    match last_bytes_of(fs, n) {
        Some(b) => {
            proof {
                lemma_last_bytes_valid(wire_fields_view(fs@), n);
            }
            match crate::proto::utf8_string(b.as_slice()) {
                Some(s) => Ok(Some(s)),
                None => Ok(None),
            }
        },
        None => Ok(None),
    }
}

proof fn lemma_last_bytes_valid(v: Seq<WireFieldV>, n: u32)
    requires
        strings_valid(v, n),
    ensures
        last_bytes(v, n) matches Some(b) ==> valid_utf8(b),
    decreases v.len(),
{
    if v.len() > 0 {
        let u = v.drop_last();
        assert forall|i: int| 0 <= i < u.len() && (#[trigger] u[i]).0 == n && u[i].1 is Bytes implies valid_utf8(
            u[i].1->Bytes_0,
        ) by {
            assert(u[i] == v[i]);
        }
        lemma_last_bytes_valid(u, n);
        assert(v.last() == v[v.len() - 1]);
    }
}

/// Read a message field with `c` levels of nesting left (see `message_field`).
pub fn read_message_field(fs: &Vec<(u32, Wire)>, n: u32, c: u32) -> (r: Result<Option<Vec<(u32, Wire)>>, DecodeError>)
    ensures
        match message_field(wire_fields_view(fs@), n, c as nat) {
            Ok(o) => r matches Ok(x) && match x {
                Some(m) => o == Some(wire_fields_view(m@)),
                None => o is None,
            },
            Err(e) => r matches Err(x) && x.0@ == e,
        },
{
    if !kinds_ok(fs, n, 2) {
        return Err(wire_error());
    }
    if !has_bytes(fs, n) {
        return Ok(None);
    }
    if c == 0 {
        return Err(limit_error());
    }
    match merged_of(fs, n) {
        Ok(m) => Ok(Some(m)),
        Err(e) => Err(e),
    }
}

/// Whether some length-delimited field is numbered `n`.
fn has_bytes(fs: &Vec<(u32, Wire)>, n: u32) -> (r: bool)
    ensures
        r == (bytes_of(wire_fields_view(fs@), n).len() > 0),
{
    let ghost v = wire_fields_view(fs@);
    proof {
        lemma_wire_fields_view(fs@);
    }
    let mut i: usize = 0;
    assert(v.take(0) =~= Seq::<WireFieldV>::empty());
    while i < fs.len()
        invariant
            i <= fs@.len(),
            v == wire_fields_view(fs@),
            v.len() == fs@.len(),
            bytes_of(v.take(i as int), n).len() == 0,
        decreases fs@.len() - i,
    {
        proof {
            lemma_wire_fields_view(fs@);
        }
        assert(v[i as int] == (fs@[i as int].0, wire_view(fs@[i as int].1)));
        assert(v.take(i + 1).drop_last() =~= v.take(i as int));
        assert(v.take(i + 1).last() == v[i as int]);
        if fs[i].0 == n {
            match &fs[i].1 {
                Wire::Bytes(_) => {
                    proof {
                        lemma_bytes_of_grows(v, n, i + 1);
                    }
                    return true;
                },
                _ => {},
            }
        }
        i = i + 1;
    }
    assert(v.take(i as int) =~= v);
    false
}

proof fn lemma_bytes_of_grows(v: Seq<WireFieldV>, n: u32, k: int)
    requires
        0 <= k <= v.len(),
        bytes_of(v.take(k), n).len() > 0,
    ensures
        bytes_of(v, n).len() > 0,
    decreases v.len() - k,
{
    if k < v.len() {
        assert(v.take(k + 1).drop_last() =~= v.take(k));
        lemma_bytes_of_grows(v, n, k + 1);
    } else {
        assert(v.take(k) =~= v);
    }
}

/// Check a repeated group field read with `c` levels left (see
/// `group_field`); its groups are then `groups_of`.
pub fn check_group_field(fs: &Vec<(u32, Wire)>, n: u32, c: u32) -> (r: Result<(), DecodeError>)
    ensures
        match group_field(wire_fields_view(fs@), n, c as nat) {
            Ok(_) => r is Ok,
            Err(e) => r matches Err(x) && x.0@ == e,
        },
{
    if !kinds_ok(fs, n, 3) {
        return Err(wire_error());
    }
    if c == 0 && has_group(fs, n) {
        return Err(limit_error());
    }
    Ok(())
}

/// Whether some group is numbered `n`.
fn has_group(fs: &Vec<(u32, Wire)>, n: u32) -> (r: bool)
    ensures
        r == (groups_of(wire_fields_view(fs@), n).len() > 0),
{
    let ghost v = wire_fields_view(fs@);
    proof {
        lemma_wire_fields_view(fs@);
    }
    let mut i: usize = 0;
    assert(v.take(0) =~= Seq::<WireFieldV>::empty());
    while i < fs.len()
        invariant
            i <= fs@.len(),
            v == wire_fields_view(fs@),
            v.len() == fs@.len(),
            groups_of(v.take(i as int), n).len() == 0,
        decreases fs@.len() - i,
    {
        proof {
            lemma_wire_fields_view(fs@);
        }
        assert(v[i as int] == (fs@[i as int].0, wire_view(fs@[i as int].1)));
        assert(v.take(i + 1).drop_last() =~= v.take(i as int));
        assert(v.take(i + 1).last() == v[i as int]);
        if fs[i].0 == n {
            match &fs[i].1 {
                Wire::Group(_) => {
                    proof {
                        lemma_groups_of_grows(v, n, i + 1);
                    }
                    return true;
                },
                _ => {},
            }
        }
        i = i + 1;
    }
    assert(v.take(i as int) =~= v);
    false
}

proof fn lemma_groups_of_grows(v: Seq<WireFieldV>, n: u32, k: int)
    requires
        0 <= k <= v.len(),
        groups_of(v.take(k), n).len() > 0,
    ensures
        groups_of(v, n).len() > 0,
    decreases v.len() - k,
{
    if k < v.len() {
        assert(v.take(k + 1).drop_last() =~= v.take(k));
        lemma_groups_of_grows(v, n, k + 1);
    } else {
        assert(v.take(k) =~= v);
    }
}

/// Check the fields outside `known` of a message read with `c` levels left.
pub fn check_unknown(fs: &Vec<(u32, Wire)>, known: &Vec<u32>, c: u32) -> (r: Result<(), DecodeError>)
    ensures
        match unknown_check(wire_fields_view(fs@), known@, c as nat) {
            Ok(_) => r is Ok,
            Err(e) => r matches Err(x) && x.0@ == e,
        },
{
    if unknown_ok_of(fs, known, c) {
        Ok(())
    } else {
        Err(limit_error())
    }
}


/// Decode the fields that a message's schema declares and the reader does
/// not use: varint fields `scalars`, string fields `strings`, and embedded
/// messages `messages` with `c` levels of nesting left.
pub fn check_declared(
    fs: &Vec<(u32, Wire)>,
    scalars: &Vec<u32>,
    strings: &Vec<u32>,
    messages: &Vec<u32>,
    c: u32,
) -> (r: Result<(), DecodeError>)
    ensures
        match declared_check(wire_fields_view(fs@), scalars@, strings@, messages@, c as nat) {
            Ok(_) => r is Ok,
            Err(e) => r matches Err(x) && x.0@ == e,
        },
{
    let ghost v = wire_fields_view(fs@);
    let mut i: usize = 0;
    assert(scalars@.take(0) =~= Seq::<u32>::empty());
    while i < scalars.len()
        invariant
            i <= scalars@.len(),
            v == wire_fields_view(fs@),
            scalars_check(v, scalars@.take(i as int)) == Ok::<(), Seq<char>>(()),
        decreases scalars@.len() - i,
    {
        assert(scalars@.take(i + 1).drop_last() =~= scalars@.take(i as int));
        assert(scalars@.take(i + 1).last() == scalars@[i as int]);
        match read_varint_field(fs, scalars[i]) {
            Err(e) => {
                proof {
                    lemma_scalars_prefix_error(v, scalars@, i + 1);
                }
                return Err(e);
            },
            Ok(_) => {},
        }
        i = i + 1;
    }
    assert(scalars@.take(i as int) =~= scalars@);
    let mut j: usize = 0;
    assert(strings@.take(0) =~= Seq::<u32>::empty());
    while j < strings.len()
        invariant
            j <= strings@.len(),
            v == wire_fields_view(fs@),
            scalars_check(v, scalars@) == Ok::<(), Seq<char>>(()),
            strings_check(v, strings@.take(j as int)) == Ok::<(), Seq<char>>(()),
        decreases strings@.len() - j,
    {
        assert(strings@.take(j + 1).drop_last() =~= strings@.take(j as int));
        assert(strings@.take(j + 1).last() == strings@[j as int]);
        match read_string_field(fs, strings[j]) {
            Err(e) => {
                proof {
                    lemma_strings_prefix_error(v, strings@, j + 1);
                }
                return Err(e);
            },
            Ok(_) => {},
        }
        j = j + 1;
    }
    assert(strings@.take(j as int) =~= strings@);
    let mut k: usize = 0;
    assert(messages@.take(0) =~= Seq::<u32>::empty());
    while k < messages.len()
        invariant
            k <= messages@.len(),
            v == wire_fields_view(fs@),
            scalars_check(v, scalars@) == Ok::<(), Seq<char>>(()),
            strings_check(v, strings@) == Ok::<(), Seq<char>>(()),
            messages_check(v, messages@.take(k as int), c as nat) == Ok::<(), Seq<char>>(()),
        decreases messages@.len() - k,
    {
        assert(messages@.take(k + 1).drop_last() =~= messages@.take(k as int));
        assert(messages@.take(k + 1).last() == messages@[k as int]);
        match read_message_field(fs, messages[k], c) {
            Err(e) => {
                proof {
                    lemma_messages_prefix_error(v, messages@, k + 1, c as nat);
                }
                return Err(e);
            },
            Ok(_) => {},
        }
        k = k + 1;
    }
    assert(messages@.take(k as int) =~= messages@);
    Ok(())
}

proof fn lemma_scalars_prefix_error(v: Seq<WireFieldV>, ns: Seq<u32>, k: int)
    requires
        0 <= k <= ns.len(),
        scalars_check(v, ns.take(k)) is Err,
    ensures
        scalars_check(v, ns) == scalars_check(v, ns.take(k)),
    decreases ns.len() - k,
{
    if k < ns.len() {
        assert(ns.take(k + 1).drop_last() =~= ns.take(k));
        lemma_scalars_prefix_error(v, ns, k + 1);
    } else {
        assert(ns.take(k) =~= ns);
    }
}

proof fn lemma_strings_prefix_error(v: Seq<WireFieldV>, ns: Seq<u32>, k: int)
    requires
        0 <= k <= ns.len(),
        strings_check(v, ns.take(k)) is Err,
    ensures
        strings_check(v, ns) == strings_check(v, ns.take(k)),
    decreases ns.len() - k,
{
    if k < ns.len() {
        assert(ns.take(k + 1).drop_last() =~= ns.take(k));
        lemma_strings_prefix_error(v, ns, k + 1);
    } else {
        assert(ns.take(k) =~= ns);
    }
}

proof fn lemma_messages_prefix_error(v: Seq<WireFieldV>, ns: Seq<u32>, k: int, c: nat)
    requires
        0 <= k <= ns.len(),
        messages_check(v, ns.take(k), c) is Err,
    ensures
        messages_check(v, ns, c) == messages_check(v, ns.take(k), c),
    decreases ns.len() - k,
{
    if k < ns.len() {
        assert(ns.take(k + 1).drop_last() =~= ns.take(k));
        lemma_messages_prefix_error(v, ns, k + 1, c);
    } else {
        assert(ns.take(k) =~= ns);
    }
}

} // verus!
