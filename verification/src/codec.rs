//! Minimal protobuf wire-format encoder and decoder.
//!
//! Only the wire types that Mozc's `commands.proto` uses are handled:
//! 0 (varint), 2 (length-delimited), 3/4 (start/end of a proto2 group).
use vstd::prelude::*;
use crate::text::{decimal_string, spec_decimal};
use vstd::slice::{slice_subrange, slice_to_vec};

verus! {

pub const WT_VARINT: u64 = 0;
pub const WT_LEN: u64 = 2;
pub const WT_START_GROUP: u64 = 3;
pub const WT_END_GROUP: u64 = 4;

// ── Models ───────────────────────────────────────────────────────────────────

/// A decoded protobuf field value.
#[derive(Debug)]
pub enum Value {
    Varint(u64),
    Bytes(Vec<u8>),
    Group(Vec<Field>),
}

/// A single decoded field: (field number, value).
pub type Field = (u32, Value);

/// Mathematical model of a decoded value.
pub enum ValueV {
    Varint(u64),
    Bytes(Seq<u8>),
    Group(Seq<(u32, ValueV)>),
}

pub type FieldV = (u32, ValueV);

pub open spec fn value_view(v: Value) -> ValueV
    decreases v,
{
    match v {
        Value::Varint(x) => ValueV::Varint(x),
        Value::Bytes(b) => ValueV::Bytes(b@),
        Value::Group(g) => ValueV::Group(fields_view(g@)),
    }
}

pub open spec fn fields_view(s: Seq<Field>) -> Seq<FieldV>
    decreases s,
{
    if s.len() == 0 {
        Seq::empty()
    } else {
        fields_view(s.drop_last()).push((s.last().0, value_view(s.last().1)))
    }
}

pub proof fn lemma_fields_view(s: Seq<Field>)
    ensures
        fields_view(s).len() == s.len(),
        forall|i: int| 0 <= i < s.len() ==> #[trigger] fields_view(s)[i] == (s[i].0, value_view(s[i].1)),
    decreases s.len(),
{
    if s.len() > 0 {
        lemma_fields_view(s.drop_last());
    }
}

pub proof fn lemma_fields_view_push(s: Seq<Field>, f: Field)
    ensures
        fields_view(s.push(f)) == fields_view(s).push((f.0, value_view(f.1))),
{
    assert(s.push(f).drop_last() =~= s);
}

/// Error raised by the decoder; holds a human-readable message.
#[derive(Debug)]
pub struct DecodeError(pub String);

impl DecodeError {
    /// The human-readable description of the error.
    pub fn message(&self) -> (s: String)
        ensures
            s@ == "protobuf decode error: "@ + self.0@,
    {
        String::from_str("protobuf decode error: ").concat(self.0.as_str())
    }
}

// ── Encoder ──────────────────────────────────────────────────────────────────

/// The bytes of the base-128 (protobuf varint) encoding of `v`.
pub open spec fn spec_varint(v: u64) -> Seq<u8>
    decreases v,
{
    if v < 128 {
        seq![v as u8]
    } else {
        seq![(v % 128 + 128) as u8] + spec_varint(v / 128)
    }
}

/// The key of a field: field number and wire type packed into one integer.
pub open spec fn spec_tag(field: u32, wire: u64) -> u64 {
    (field as u64 * 8 + wire) as u64
}

/// Bytes of a varint field.
pub open spec fn spec_varint_field(field: u32, value: u64) -> Seq<u8> {
    spec_varint(spec_tag(field, WT_VARINT)) + spec_varint(value)
}

/// Bytes of a length-delimited field.
pub open spec fn spec_len_field(field: u32, data: Seq<u8>) -> Seq<u8> {
    spec_varint(spec_tag(field, WT_LEN)) + spec_varint(data.len() as u64) + data
}

/// Append the varint encoding of `v` to `buf`.
pub fn write_varint(buf: &mut Vec<u8>, v: u64)
    ensures
        final(buf)@ == old(buf)@ + spec_varint(v),
{
    let mut x = v;
    loop
        invariant
            old(buf)@ + spec_varint(v) == buf@ + spec_varint(x),
        decreases x,
    {
        let b = (x % 128) as u8;
        let rest = x / 128;
        let ghost before = buf@;
        if rest == 0 {
            assert(spec_varint(x) == seq![b]);
            buf.push(b);
            assert(buf@ =~= before + seq![b]);
            return;
        }
        assert(spec_varint(x) == seq![(b + 128) as u8] + spec_varint(rest));
        buf.push(b + 128);
        assert(buf@ + spec_varint(rest) =~= before + (seq![(b + 128) as u8] + spec_varint(rest)));
        x = rest;
    }
}

fn write_tag(buf: &mut Vec<u8>, field: u32, wire: u64)
    requires
        wire < 8,
    ensures
        final(buf)@ == old(buf)@ + spec_varint(spec_tag(field, wire)),
{
    let tag = ((field as u64) << 3) | wire;
    assert(tag == spec_tag(field, wire)) by (bit_vector)
        requires
            wire < 8,
            tag == ((field as u64) << 3) | wire,
    ;
    write_varint(buf, tag);
}

/// Encode a varint field (integer, bool, enum).
pub fn write_varint_field(buf: &mut Vec<u8>, field: u32, value: u64)
    ensures
        final(buf)@ == old(buf)@ + spec_varint_field(field, value),
{
    write_tag(buf, field, WT_VARINT);
    write_varint(buf, value);
    assert(buf@ =~= old(buf)@ + spec_varint_field(field, value));
}

/// Encode a length-delimited field (string, bytes, embedded message).
pub fn write_len_field(buf: &mut Vec<u8>, field: u32, data: &[u8])
    ensures
        final(buf)@ == old(buf)@ + spec_len_field(field, data@),
{
    write_tag(buf, field, WT_LEN);
    write_varint(buf, data.len() as u64);
    let ghost mid = buf@;
    buf.extend_from_slice(data);
    assert(buf@ =~= mid + data@);
    assert(buf@ =~= old(buf)@ + spec_len_field(field, data@));
}

} // verus!

verus! {

// ── Decoder ──────────────────────────────────────────────────────────────────

pub open spec fn pow128(k: nat) -> nat
    decreases k,
{
    if k == 0 {
        1
    } else {
        128 * pow128((k - 1) as nat)
    }
}

/// Weighted sum of the 7-bit groups of the varint that continues at `pos`,
/// `k` groups having been read already, and the position after its last byte.
pub open spec fn varint_sum(data: Seq<u8>, pos: int, k: nat) -> Result<(nat, int), Seq<char>>
    decreases 10 - k,
{
    if k >= 10 {
        Err("varint overflow"@)
    } else if pos < 0 || pos >= data.len() {
        Err("truncated varint"@)
    } else {
        let b = data[pos];
        let part = (b % 128) as nat * pow128(k);
        if b < 128 {
            Ok((part, pos + 1))
        } else if k + 1 >= 10 {
            Err("varint overflow"@)
        } else {
            match varint_sum(data, pos + 1, k + 1) {
                Ok((s, e)) => Ok((part + s, e)),
                Err(m) => Err(m),
            }
        }
    }
}

/// The varint starting at `pos`: its value (reduced modulo 2^64, as a `u64`
/// accumulator keeps it) and the position after it.
pub open spec fn spec_read_varint(data: Seq<u8>, pos: int) -> Result<(u64, int), Seq<char>> {
    match varint_sum(data, pos, 0) {
        Ok((s, e)) => Ok(((s % 0x1_0000_0000_0000_0000) as u64, e)),
        Err(m) => Err(m),
    }
}

pub open spec fn prepend_fields(
    pre: Seq<FieldV>,
    r: Result<(Seq<FieldV>, int), Seq<char>>,
) -> Result<(Seq<FieldV>, int), Seq<char>> {
    match r {
        Ok((fs, e)) => Ok((pre + fs, e)),
        Err(m) => Err(m),
    }
}

/// The varint starting at `pos` as protobuf defines it: at most ten bytes
/// whose value fits in 64 bits, and the position after it.
pub open spec fn spec_varint_exact(data: Seq<u8>, pos: int) -> Result<(u64, int), Seq<char>> {
    match varint_sum(data, pos, 0) {
        Ok((s, e)) => if s < 0x1_0000_0000_0000_0000 {
            Ok((s as u64, e))
        } else {
            Err("invalid varint"@)
        },
        Err(m) => Err(m),
    }
}

/// Decoding of `data[pos..]`: the fields read and the position where decoding
/// stopped, stopping at the end of the data or, when `end_group` is set, at the
/// end-group tag of that field.
pub open spec fn spec_decode_from(data: Seq<u8>, pos: int, end_group: Option<u32>) -> Result<
    (Seq<FieldV>, int),
    Seq<char>,
>
    decreases data.len() - pos,
{
    if pos >= data.len() {
        if end_group is Some {
            Err("missing end-group tag"@)
        } else {
            Ok((Seq::empty(), pos))
        }
    } else {
        match spec_read_varint(data, pos) {
            Err(m) => Err(m),
            Ok((tag, p1)) => {
                let field = #[verifier::truncate] ((tag / 8) as u32);
                let wire = tag % 8;
                if p1 <= pos || p1 > data.len() {
                    Err(Seq::empty())
                } else if wire == WT_VARINT {
                    match spec_read_varint(data, p1) {
                        Err(m) => Err(m),
                        Ok((v, p2)) => if p2 <= pos || p2 > data.len() {
                            Err(Seq::empty())
                        } else {
                            prepend_fields(
                                seq![(field, ValueV::Varint(v))],
                                spec_decode_from(data, p2, end_group),
                            )
                        },
                    }
                } else if wire == WT_LEN {
                    match spec_read_varint(data, p1) {
                        Err(m) => Err(m),
                        Ok((len, p2)) => if p2 < 0 || p2 + len > data.len() {
                            Err("LEN field exceeds buffer"@)
                        } else if p2 + len <= pos {
                            Err(Seq::empty())
                        } else {
                            prepend_fields(
                                seq![(field, ValueV::Bytes(data.subrange(p2, p2 + len)))],
                                spec_decode_from(data, p2 + len, end_group),
                            )
                        },
                    }
                } else if wire == WT_START_GROUP {
                    if p1 > pos && p1 <= data.len() {
                        match spec_decode_from(data, p1, Some(field)) {
                            Err(m) => Err(m),
                            Ok((g, p2)) => if p2 <= pos || p2 > data.len() {
                                Err(Seq::empty())
                            } else {
                                prepend_fields(
                                    seq![(field, ValueV::Group(g))],
                                    spec_decode_from(data, p2, end_group),
                                )
                            },
                        }
                    } else {
                        Err(Seq::empty())
                    }
                } else if wire == WT_END_GROUP {
                    if end_group == Some(field) {
                        Ok((Seq::empty(), p1))
                    } else {
                        Err("unexpected end-group for field "@ + spec_decimal(field as u64))
                    }
                } else {
                    Err("unsupported wire type "@ + spec_decimal(wire))
                }
            },
        }
    }
}

/// Decoding of a whole message.
pub open spec fn spec_decode(data: Seq<u8>) -> Result<Seq<FieldV>, Seq<char>> {
    match spec_decode_from(data, 0, None) {
        Ok((fs, _)) => Ok(fs),
        Err(m) => Err(m),
    }
}

proof fn lemma_pow128_bound(k: nat)
    requires
        k <= 9,
    ensures
        1 <= pow128(k) <= 0x8000_0000_0000_0000,
    decreases k,
{
    if k > 0 {
        lemma_pow128_bound((k - 1) as nat);
        assert(pow128(9) == 0x8000_0000_0000_0000) by {
            reveal_with_fuel(pow128, 10);
        }
        lemma_pow128_mono((k - 1) as nat, 8);
        if k <= 8 {
            lemma_pow128_mono(k, 9);
        }
    }
}

proof fn lemma_pow128_mono(a: nat, b: nat)
    requires
        a <= b,
    ensures
        pow128(a) <= pow128(b),
    decreases b,
{
    if a < b {
        lemma_pow128_mono(a, (b - 1) as nat);
    }
}

pub proof fn lemma_varint_sum_bounds(data: Seq<u8>, pos: int, k: nat)
    ensures
        varint_sum(data, pos, k) matches Ok((s, e)) ==> pos < e <= data.len(),
    decreases 10 - k,
{
    if k < 10 && 0 <= pos < data.len() {
        let b = data[pos];
        if b >= 128 && k + 1 < 10 {
            lemma_varint_sum_bounds(data, pos + 1, k + 1);
        }
    }
}

fn err(msg: &str) -> (e: DecodeError)
    ensures
        e.0@ == msg@,
{
    DecodeError(String::from_str(msg))
}

fn read_varint(data: &[u8], pos: &mut usize) -> (r: Result<u64, DecodeError>)
    ensures
        match spec_read_varint(data@, *old(pos) as int) {
            Ok((v, e)) => r matches Ok(x) && x == v && *final(pos) == e,
            Err(m) => r matches Err(er) && er.0@ == m,
        },
{
    let mut sum: u128 = 0;
    let mut mult: u128 = 1;
    let mut k: usize = 0;
    let ghost start = *pos as int;
    proof {
        lemma_pow128_bound(0);
    }
    loop
        invariant
            k < 10,
            *pos as int == start + k,
            mult == pow128(k as nat),
            sum < mult,
            mult <= 0x8000_0000_0000_0000,
            start == *old(pos) as int,
            varint_sum(data@, start, 0) == match varint_sum(data@, *pos as int, k as nat) {
                Ok((s, e)) => Ok(((sum + s) as nat, e)),
                Err(m) => Err(m),
            },
        decreases 10 - k,
    {
        if *pos >= data.len() {
            return Err(err("truncated varint"));
        }
        let b = data[*pos];
        *pos = *pos + 1;
        assert((b % 128) as u128 * mult <= 127 * 0x8000_0000_0000_0000) by (nonlinear_arith)
            requires
                mult <= 0x8000_0000_0000_0000,
                b % 128 <= 127,
        ;
        let part: u128 = (b % 128) as u128 * mult;
        sum = sum + part;
        if b < 128 {
            return Ok((sum % 0x1_0000_0000_0000_0000u128) as u64);
        }
        k = k + 1;
        if k >= 10 {
            return Err(err("varint overflow"));
        }
        proof {
            lemma_pow128_bound(k as nat);
            assert(sum < mult * 128) by (nonlinear_arith)
                requires
                    sum == (sum - part) + part,
                    sum - part < mult,
                    part == (b % 128) as nat * mult,
                    b % 128 <= 127,
            ;
        }
        mult = mult * 128;
    }
}

/// Read a varint as protobuf defines it (see `spec_varint_exact`).
pub(crate) fn read_varint_exact(data: &[u8], pos: &mut usize) -> (r: Result<u64, DecodeError>)
    ensures
        match spec_varint_exact(data@, *old(pos) as int) {
            Ok((v, e)) => r matches Ok(x) && x == v && *final(pos) == e,
            Err(m) => r matches Err(er) && er.0@ == m,
        },
{
    let mut sum: u128 = 0;
    let mut mult: u128 = 1;
    let mut k: usize = 0;
    let ghost start = *pos as int;
    proof {
        lemma_pow128_bound(0);
    }
    loop
        invariant
            k < 10,
            *pos as int == start + k,
            mult == pow128(k as nat),
            sum < mult,
            mult <= 0x8000_0000_0000_0000,
            start == *old(pos) as int,
            varint_sum(data@, start, 0) == match varint_sum(data@, *pos as int, k as nat) {
                Ok((s, e)) => Ok(((sum + s) as nat, e)),
                Err(m) => Err(m),
            },
        decreases 10 - k,
    {
        if *pos >= data.len() {
            return Err(err("truncated varint"));
        }
        let b = data[*pos];
        *pos = *pos + 1;
        assert((b % 128) as u128 * mult <= 127 * 0x8000_0000_0000_0000) by (nonlinear_arith)
            requires
                mult <= 0x8000_0000_0000_0000,
                b % 128 <= 127,
        ;
        let part: u128 = (b % 128) as u128 * mult;
        sum = sum + part;
        if b < 128 {
            if sum >= 0x1_0000_0000_0000_0000u128 {
                return Err(err("invalid varint"));
            }
            return Ok(sum as u64);
        }
        k = k + 1;
        if k >= 10 {
            return Err(err("varint overflow"));
        }
        proof {
            lemma_pow128_bound(k as nat);
            assert(sum < mult * 128) by (nonlinear_arith)
                requires
                    sum == (sum - part) + part,
                    sum - part < mult,
                    part == (b % 128) as nat * mult,
                    b % 128 <= 127,
            ;
        }
        mult = mult * 128;
    }
}

} // verus!

verus! {

proof fn lemma_prepend_assoc(a: Seq<FieldV>, b: Seq<FieldV>, r: Result<(Seq<FieldV>, int), Seq<char>>)
    ensures
        prepend_fields(a, prepend_fields(b, r)) == prepend_fields(a + b, r),
{
    if let Ok((fs, e)) = r {
        assert((a + b) + fs =~= a + (b + fs));
    }
}

proof fn lemma_decode_from_bounds(data: Seq<u8>, pos: int, end_group: Option<u32>)
    requires
        0 <= pos <= data.len(),
    ensures
        spec_decode_from(data, pos, end_group) matches Ok((fs, e)) ==> pos <= e <= data.len(),
    decreases data.len() - pos,
{
    if pos < data.len() {
        if let Ok((tag, p1)) = spec_read_varint(data, pos) {
            let field = #[verifier::truncate] ((tag / 8) as u32);
            let wire = tag % 8;
            if p1 > pos && p1 <= data.len() {
                if wire == WT_VARINT {
                    if let Ok((v, p2)) = spec_read_varint(data, p1) {
                        if p2 > pos && p2 <= data.len() {
                            lemma_decode_from_bounds(data, p2, end_group);
                        }
                    }
                } else if wire == WT_LEN {
                    if let Ok((len, p2)) = spec_read_varint(data, p1) {
                        if 0 <= p2 && p2 + len <= data.len() && p2 + len > pos {
                            lemma_decode_from_bounds(data, p2 + len, end_group);
                        }
                    }
                } else if wire == WT_START_GROUP {
                    lemma_decode_from_bounds(data, p1, Some(field));
                    if let Ok((g, p2)) = spec_decode_from(data, p1, Some(field)) {
                        if p2 > pos && p2 <= data.len() {
                            lemma_decode_from_bounds(data, p2, end_group);
                        }
                    }
                }
            }
        }
    }
}

/// Decode fields from `data[pos..]`, stopping at the end of the slice or at
/// the end-group tag of `end_group_field` (used for nested groups).
fn decode_into(data: &[u8], pos: &mut usize, end_group_field: Option<u32>) -> (r: Result<
    Vec<Field>,
    DecodeError,
>)
    requires
        *old(pos) <= data.len(),
    ensures
        match spec_decode_from(data@, *old(pos) as int, end_group_field) {
            Ok((fs, e)) => r matches Ok(v) && fields_view(v@) == fs && *final(pos) == e,
            Err(m) => r matches Err(er) && er.0@ == m,
        },
    decreases data.len() - *old(pos),
{
    let mut fields: Vec<Field> = Vec::new();
    assert(fields_view(fields@) =~= Seq::<FieldV>::empty());
    assert(prepend_fields(Seq::empty(), spec_decode_from(data@, *pos as int, end_group_field))
        == spec_decode_from(data@, *pos as int, end_group_field)) by {
        if let Ok((fs, e)) = spec_decode_from(data@, *pos as int, end_group_field) {
            assert(Seq::<FieldV>::empty() + fs =~= fs);
        }
    }
    while *pos < data.len()
        invariant
            *old(pos) <= *pos <= data.len(),
            spec_decode_from(data@, *old(pos) as int, end_group_field) == prepend_fields(
                fields_view(fields@),
                spec_decode_from(data@, *pos as int, end_group_field),
            ),
        decreases data.len() - *pos,
    {
        let ghost p0 = *pos as int;
        let ghost fv0 = fields_view(fields@);
        let ghost old_fields = fields@;
        let tag = match read_varint(data, pos) {
            Ok(t) => t,
            Err(e) => return Err(e),
        };
        proof {
            lemma_varint_sum_bounds(data@, p0, 0);
        }
        let field_num = #[verifier::truncate] ((tag / 8) as u32);
        let wire = tag % 8;
        if wire == WT_VARINT {
            let ghost p1 = *pos as int;
            let v = match read_varint(data, pos) {
                Ok(v) => v,
                Err(e) => return Err(e),
            };
            proof {
                lemma_varint_sum_bounds(data@, p1, 0);
            }
            let ghost f = (field_num, Value::Varint(v));
            fields.push((field_num, Value::Varint(v)));
            proof {
                assert(fields@ =~= old_fields.push(f));
                lemma_fields_view_push(old_fields, f);
                assert(fv0.push((field_num, ValueV::Varint(v))) =~= fv0 + seq![(field_num, ValueV::Varint(v))]);
                assert(spec_decode_from(data@, p0, end_group_field) == prepend_fields(seq![(field_num, ValueV::Varint(v))], spec_decode_from(data@, *pos as int, end_group_field)));
                lemma_prepend_assoc(fv0, seq![(field_num, ValueV::Varint(v))], spec_decode_from(data@, *pos as int, end_group_field));
            }
        } else if wire == WT_LEN {
            let ghost p1 = *pos as int;
            let len = match read_varint(data, pos) {
                Ok(v) => v,
                Err(e) => return Err(e),
            };
            proof {
                lemma_varint_sum_bounds(data@, p1, 0);
            }
            if len > (data.len() - *pos) as u64 {
                return Err(err("LEN field exceeds buffer"));
            }
            let end = *pos + len as usize;
            let bytes = slice_to_vec(slice_subrange(data, *pos, end));
            let ghost f = (field_num, Value::Bytes(bytes));
            let ghost bv = data@.subrange(*pos as int, end as int);
            fields.push((field_num, Value::Bytes(bytes)));
            *pos = end;
            proof {
                assert(fields@ =~= old_fields.push(f));
                lemma_fields_view_push(old_fields, f);
                assert(fv0.push((field_num, ValueV::Bytes(bv))) =~= fv0 + seq![(field_num, ValueV::Bytes(bv))]);
                assert(spec_decode_from(data@, p0, end_group_field) == prepend_fields(seq![(field_num, ValueV::Bytes(bv))], spec_decode_from(data@, *pos as int, end_group_field)));
                lemma_prepend_assoc(fv0, seq![(field_num, ValueV::Bytes(bv))], spec_decode_from(data@, *pos as int, end_group_field));
            }
        } else if wire == WT_START_GROUP {
            let ghost p1 = *pos as int;
            let nested = match decode_into(data, pos, Some(field_num)) {
                Ok(n) => n,
                Err(e) => return Err(e),
            };
            proof {
                lemma_decode_from_bounds(data@, p1, Some(field_num));
            }
            let ghost g = fields_view(nested@);
            let ghost f = (field_num, Value::Group(nested));
            fields.push((field_num, Value::Group(nested)));
            proof {
                assert(fields@ =~= old_fields.push(f));
                lemma_fields_view_push(old_fields, f);
                assert(fv0.push((field_num, ValueV::Group(g))) =~= fv0 + seq![(field_num, ValueV::Group(g))]);
                assert(spec_decode_from(data@, p0, end_group_field) == prepend_fields(seq![(field_num, ValueV::Group(g))], spec_decode_from(data@, *pos as int, end_group_field)));
                lemma_prepend_assoc(fv0, seq![(field_num, ValueV::Group(g))], spec_decode_from(data@, *pos as int, end_group_field));
            }
        } else if wire == WT_END_GROUP {
            match end_group_field {
                Some(g) => {
                    if g == field_num {
                        proof {
                            assert(fv0 + Seq::<FieldV>::empty() =~= fv0);
                        }
                        return Ok(fields);
                    }
                },
                None => {},
            }
            let msg = String::from_str("unexpected end-group for field ").concat(
                decimal_string(field_num as u64).as_str(),
            );
            return Err(DecodeError(msg));
        } else {
            let msg = String::from_str("unsupported wire type ").concat(decimal_string(wire).as_str());
            return Err(DecodeError(msg));
        }
    }
    match end_group_field {
        Some(_) => Err(err("missing end-group tag")),
        None => {
            assert(fields_view(fields@) + Seq::<FieldV>::empty() =~= fields_view(fields@));
            Ok(fields)
        },
    }
}

/// Decode all top-level protobuf fields from `data`.
pub fn decode(data: &[u8]) -> (r: Result<Vec<Field>, DecodeError>)
    ensures
        match spec_decode(data@) {
            Ok(fs) => r matches Ok(v) && fields_view(v@) == fs,
            Err(m) => r matches Err(e) && e.0@ == m,
        },
{
    let mut pos: usize = 0;
    decode_into(data, &mut pos, None)
}

} // verus!

verus! {

// ── Copying ──────────────────────────────────────────────────────────────────

/// A deep copy of a decoded value.
pub fn copy_value(v: &Value) -> (r: Value)
    ensures
        value_view(r) == value_view(*v),
    decreases v,
{
    match v {
        Value::Varint(x) => Value::Varint(*x),
        Value::Bytes(b) => Value::Bytes(slice_to_vec(b.as_slice())),
        Value::Group(g) => Value::Group(copy_fields(g)),
    }
}

/// A deep copy of a decoded field list.
pub fn copy_fields(g: &Vec<Field>) -> (r: Vec<Field>)
    ensures
        fields_view(r@) == fields_view(g@),
    decreases g,
{
    let mut r: Vec<Field> = Vec::new();
    let mut i: usize = 0;
    while i < g.len()
        invariant
            i <= g.len(),
            fields_view(r@) == fields_view(g@.take(i as int)),
        decreases g.len() - i,
    {
        let ghost old_r = r@;
        assert(decreases_to!(g => g@[i as int].1)) by {
            assert(decreases_to!(g => g@));
            assert(decreases_to!(g@ => g@[i as int]));
        }
        let c = copy_value(&g[i].1);
        let ghost f = (g@[i as int].0, c);
        r.push((g[i].0, c));
        proof {
            assert(r@ =~= old_r.push(f));
            lemma_fields_view_push(old_r, f);
            assert(g@.take(i + 1) =~= g@.take(i as int).push(g@[i as int]));
            lemma_fields_view_push(g@.take(i as int), g@[i as int]);
        }
        i = i + 1;
    }
    assert(g@.take(i as int) =~= g@);
    r
}

// ── Lookup helpers ───────────────────────────────────────────────────────────

/// Varint value of the first field numbered `n` that holds a varint.
pub open spec fn spec_find_varint(fs: Seq<FieldV>, n: u32) -> Option<u64>
    decreases fs.len(),
{
    if fs.len() == 0 {
        None
    } else {
        match fs[0].1 {
            ValueV::Varint(x) if fs[0].0 == n => Some(x),
            _ => spec_find_varint(fs.drop_first(), n),
        }
    }
}

/// Bytes of the first field numbered `n` that holds bytes.
pub open spec fn spec_find_bytes(fs: Seq<FieldV>, n: u32) -> Option<Seq<u8>>
    decreases fs.len(),
{
    if fs.len() == 0 {
        None
    } else {
        match fs[0].1 {
            ValueV::Bytes(b) if fs[0].0 == n => Some(b),
            _ => spec_find_bytes(fs.drop_first(), n),
        }
    }
}

/// The nested fields a value holds: a group's own fields, or the decoding of
/// length-delimited bytes when they decode.
pub open spec fn spec_msg_of(v: ValueV) -> Option<Seq<FieldV>> {
    match v {
        ValueV::Bytes(b) => match spec_decode(b) {
            Ok(fs) => Some(fs),
            Err(_) => None,
        },
        ValueV::Group(g) => Some(g),
        ValueV::Varint(_) => None,
    }
}

/// Nested fields of the first field numbered `n` that holds a message.
pub open spec fn spec_find_msg(fs: Seq<FieldV>, n: u32) -> Option<Seq<FieldV>>
    decreases fs.len(),
{
    if fs.len() == 0 {
        None
    } else if fs[0].0 == n && spec_msg_of(fs[0].1) is Some {
        spec_msg_of(fs[0].1)
    } else {
        spec_find_msg(fs.drop_first(), n)
    }
}

/// Bytes of every field numbered `n` that holds bytes, in order.
pub open spec fn spec_find_all_bytes(fs: Seq<FieldV>, n: u32) -> Seq<Seq<u8>>
    decreases fs.len(),
{
    if fs.len() == 0 {
        Seq::empty()
    } else {
        let rest = spec_find_all_bytes(fs.drop_last(), n);
        match fs.last().1 {
            ValueV::Bytes(b) if fs.last().0 == n => rest.push(b),
            _ => rest,
        }
    }
}

/// Nested fields of every field numbered `n` that holds a message, in order.
pub open spec fn spec_find_all_msg(fs: Seq<FieldV>, n: u32) -> Seq<Seq<FieldV>>
    decreases fs.len(),
{
    if fs.len() == 0 {
        Seq::empty()
    } else {
        let rest = spec_find_all_msg(fs.drop_last(), n);
        if fs.last().0 == n && spec_msg_of(fs.last().1) is Some {
            rest.push(spec_msg_of(fs.last().1).unwrap())
        } else {
            rest
        }
    }
}

proof fn lemma_view_skip(s: Seq<Field>, i: int)
    requires
        0 <= i < s.len(),
    ensures
        fields_view(s).skip(i).len() > 0,
        fields_view(s).skip(i)[0] == (s[i].0, value_view(s[i].1)),
        fields_view(s).skip(i).drop_first() == fields_view(s).skip(i + 1),
{
    lemma_fields_view(s);
    assert(fields_view(s).skip(i).drop_first() =~= fields_view(s).skip(i + 1));
}

proof fn lemma_view_take(s: Seq<Field>, i: int)
    requires
        0 <= i < s.len(),
    ensures
        fields_view(s).take(i + 1).drop_last() == fields_view(s).take(i),
        fields_view(s).take(i + 1).last() == (s[i].0, value_view(s[i].1)),
        fields_view(s).take(i + 1).len() == i + 1,
{
    lemma_fields_view(s);
    assert(fields_view(s).take(i + 1).drop_last() =~= fields_view(s).take(i));
}

/// Find the first field with the given number and return its varint value.
pub fn find_varint(fields: &[Field], field_num: u32) -> (r: Option<u64>)
    ensures
        r == spec_find_varint(fields_view(fields@), field_num),
{
    let mut i: usize = 0;
    proof {
        lemma_fields_view(fields@);
        assert(fields_view(fields@).skip(0) =~= fields_view(fields@));
    }
    while i < fields.len()
        invariant
            i <= fields.len(),
            spec_find_varint(fields_view(fields@), field_num) == spec_find_varint(
                fields_view(fields@).skip(i as int),
                field_num,
            ),
        decreases fields.len() - i,
    {
        proof {
            lemma_view_skip(fields@, i as int);
        }
        if fields[i].0 == field_num {
            if let Value::Varint(x) = &fields[i].1 {
                return Some(*x);
            }
        }
        i = i + 1;
    }
    proof {
        lemma_fields_view(fields@);
    }
    None
}

/// Find the first field with the given number and return its bytes.
pub fn find_bytes<'a>(fields: &'a [Field], field_num: u32) -> (r: Option<&'a [u8]>)
    ensures
        match spec_find_bytes(fields_view(fields@), field_num) {
            Some(b) => r matches Some(x) && x@ == b,
            None => r is None,
        },
{
    let mut i: usize = 0;
    proof {
        lemma_fields_view(fields@);
        assert(fields_view(fields@).skip(0) =~= fields_view(fields@));
    }
    while i < fields.len()
        invariant
            i <= fields.len(),
            spec_find_bytes(fields_view(fields@), field_num) == spec_find_bytes(
                fields_view(fields@).skip(i as int),
                field_num,
            ),
        decreases fields.len() - i,
    {
        proof {
            lemma_view_skip(fields@, i as int);
        }
        if fields[i].0 == field_num {
            if let Value::Bytes(b) = &fields[i].1 {
                return Some(b.as_slice());
            }
        }
        i = i + 1;
    }
    proof {
        lemma_fields_view(fields@);
    }
    None
}

fn msg_of(v: &Value) -> (r: Option<Vec<Field>>)
    ensures
        match spec_msg_of(value_view(*v)) {
            Some(fs) => r matches Some(x) && fields_view(x@) == fs,
            None => r is None,
        },
{
    match v {
        Value::Bytes(b) => match decode(b.as_slice()) {
            Ok(fs) => Some(fs),
            Err(_) => None,
        },
        Value::Group(g) => Some(copy_fields(g)),
        Value::Varint(_) => None,
    }
}

/// Find the first field with the given number and return its nested fields.
pub fn find_msg(fields: &[Field], field_num: u32) -> (r: Option<Vec<Field>>)
    ensures
        match spec_find_msg(fields_view(fields@), field_num) {
            Some(fs) => r matches Some(x) && fields_view(x@) == fs,
            None => r is None,
        },
{
    let mut i: usize = 0;
    proof {
        lemma_fields_view(fields@);
        assert(fields_view(fields@).skip(0) =~= fields_view(fields@));
    }
    while i < fields.len()
        invariant
            i <= fields.len(),
            spec_find_msg(fields_view(fields@), field_num) == spec_find_msg(
                fields_view(fields@).skip(i as int),
                field_num,
            ),
        decreases fields.len() - i,
    {
        proof {
            lemma_view_skip(fields@, i as int);
        }
        if fields[i].0 == field_num {
            let m = msg_of(&fields[i].1);
            if m.is_some() {
                return m;
            }
        }
        i = i + 1;
    }
    proof {
        lemma_fields_view(fields@);
    }
    None
}

/// Collect the bytes of every field with the given number.
pub fn find_all_bytes<'a>(fields: &'a [Field], field_num: u32) -> (r: Vec<&'a [u8]>)
    ensures
        r@.len() == spec_find_all_bytes(fields_view(fields@), field_num).len(),
        forall|j: int|
            0 <= j < r@.len() ==> #[trigger] r@[j]@ == spec_find_all_bytes(
                fields_view(fields@),
                field_num,
            )[j],
{
    let mut r: Vec<&'a [u8]> = Vec::new();
    let mut i: usize = 0;
    proof {
        lemma_fields_view(fields@);
        assert(fields_view(fields@).take(0) =~= Seq::<FieldV>::empty());
    }
    while i < fields.len()
        invariant
            i <= fields.len(),
            r@.len() == spec_find_all_bytes(fields_view(fields@).take(i as int), field_num).len(),
            forall|j: int|
                0 <= j < r@.len() ==> #[trigger] r@[j]@ == spec_find_all_bytes(
                    fields_view(fields@).take(i as int),
                    field_num,
                )[j],
        decreases fields.len() - i,
    {
        proof {
            lemma_view_take(fields@, i as int);
        }
        if fields[i].0 == field_num {
            if let Value::Bytes(b) = &fields[i].1 {
                r.push(b.as_slice());
            }
        }
        i = i + 1;
    }
    proof {
        lemma_fields_view(fields@);
        assert(fields_view(fields@).take(fields@.len() as int) =~= fields_view(fields@));
    }
    r
}

/// Collect the nested fields of every field with the given number.
pub fn find_all_msg(fields: &[Field], field_num: u32) -> (r: Vec<Vec<Field>>)
    ensures
        r@.len() == spec_find_all_msg(fields_view(fields@), field_num).len(),
        forall|j: int|
            0 <= j < r@.len() ==> fields_view(#[trigger] r@[j]@) == spec_find_all_msg(
                fields_view(fields@),
                field_num,
            )[j],
{
    let mut r: Vec<Vec<Field>> = Vec::new();
    let mut i: usize = 0;
    proof {
        lemma_fields_view(fields@);
        assert(fields_view(fields@).take(0) =~= Seq::<FieldV>::empty());
    }
    while i < fields.len()
        invariant
            i <= fields.len(),
            r@.len() == spec_find_all_msg(fields_view(fields@).take(i as int), field_num).len(),
            forall|j: int|
                0 <= j < r@.len() ==> fields_view(#[trigger] r@[j]@) == spec_find_all_msg(
                    fields_view(fields@).take(i as int),
                    field_num,
                )[j],
        decreases fields.len() - i,
    {
        proof {
            lemma_view_take(fields@, i as int);
        }
        if fields[i].0 == field_num {
            let m = msg_of(&fields[i].1);
            match m {
                Some(fs) => r.push(fs),
                None => {},
            }
        }
        i = i + 1;
    }
    proof {
        lemma_fields_view(fields@);
        assert(fields_view(fields@).take(fields@.len() as int) =~= fields_view(fields@));
    }
    r
}

} // verus!

verus! {

// ── Round trip ───────────────────────────────────────────────────────────────

/// Bytes of one field as the encoder writes it; a group is written between
/// its start-group and end-group tags.
pub open spec fn spec_encode_field(f: FieldV) -> Seq<u8>
    decreases f,
{
    match f.1 {
        ValueV::Varint(v) => spec_varint_field(f.0, v),
        ValueV::Bytes(b) => spec_len_field(f.0, b),
        ValueV::Group(g) => spec_varint(spec_tag(f.0, WT_START_GROUP)) + spec_encode_fields(g)
            + spec_varint(spec_tag(f.0, WT_END_GROUP)),
    }
}

/// Bytes of a sequence of fields, one after another.
pub open spec fn spec_encode_fields(fs: Seq<FieldV>) -> Seq<u8>
    decreases fs,
{
    if fs.len() == 0 {
        Seq::empty()
    } else {
        spec_encode_field(fs[0]) + spec_encode_fields(fs.drop_first())
    }
}

/// Every length-delimited payload, at any depth, has a length that fits a `u64`.
pub open spec fn encodable_fields(fs: Seq<FieldV>) -> bool
    decreases fs,
{
    fs.len() > 0 ==> encodable_value(fs[0].1) && encodable_fields(fs.drop_first())
}

pub open spec fn encodable_value(v: ValueV) -> bool
    decreases v,
{
    match v {
        ValueV::Varint(_) => true,
        ValueV::Bytes(b) => b.len() < 0x1_0000_0000_0000_0000,
        ValueV::Group(g) => encodable_fields(g),
    }
}

proof fn lemma_pow128_10()
    ensures
        pow128(10) == 0x40_0000_0000_0000_0000,
{
    reveal_with_fuel(pow128, 11);
}

proof fn lemma_varint_len(x: u64)
    ensures
        spec_varint(x).len() >= 1,
    decreases x,
{
    if x >= 128 {
        lemma_varint_len(x / 128);
    }
}

proof fn lemma_varint_sum_enc(data: Seq<u8>, p: int, x: u64, k: nat)
    requires
        0 <= p,
        p + spec_varint(x).len() <= data.len(),
        data.subrange(p, p + spec_varint(x).len()) == spec_varint(x),
        k < 10,
        x * pow128(k) < 0x1_0000_0000_0000_0000,
    ensures
        varint_sum(data, p, k) == Ok::<(nat, int), Seq<char>>(
            ((x * pow128(k)) as nat, p + spec_varint(x).len()),
        ),
    decreases x,
{
    let enc = spec_varint(x);
    assert(data[p] == enc[0]) by {
        assert(data.subrange(p, p + enc.len())[0] == data[p]);
    }
    if x >= 128 {
        let rest = spec_varint(x / 128);
        assert(enc == seq![(x % 128 + 128) as u8] + rest);
        lemma_pow128_10();
        if k + 1 >= 10 {
            lemma_pow128_mono(k + 1, 10);
            assert(x * pow128(k) >= 128 * pow128(k)) by (nonlinear_arith)
                requires
                    x >= 128,
            ;
            assert(false);
        }
        assert((x / 128) * pow128(k + 1) <= x * pow128(k)) by (nonlinear_arith)
            requires
                pow128(k + 1) == 128 * pow128(k),
        ;
        assert(data.subrange(p + 1, p + 1 + rest.len()) =~= rest) by {
            assert forall|j: int| 0 <= j < rest.len() implies data.subrange(
                p + 1,
                p + 1 + rest.len(),
            )[j] == rest[j] by {
                assert(data.subrange(p, p + enc.len())[j + 1] == enc[j + 1]);
            }
        }
        lemma_varint_sum_enc(data, p + 1, x / 128, k + 1);
        assert((x % 128) * pow128(k) + (x / 128) * pow128(k + 1) == x * pow128(k))
            by (nonlinear_arith)
            requires
                pow128(k + 1) == 128 * pow128(k),
        ;
    }
}

/// Reading a varint back from its encoding, wherever it stands in a buffer,
/// gives the value and the position just after the encoding.
pub proof fn lemma_read_varint_roundtrip(data: Seq<u8>, p: int, x: u64)
    requires
        0 <= p,
        p + spec_varint(x).len() <= data.len(),
        data.subrange(p, p + spec_varint(x).len()) == spec_varint(x),
    ensures
        spec_read_varint(data, p) == Ok::<(u64, int), Seq<char>>((x, p + spec_varint(x).len())),
{
    assert(pow128(0) == 1);
    lemma_varint_sum_enc(data, p, x, 0);
    assert((x * 1) as nat % 0x1_0000_0000_0000_0000 == x);
}

proof fn lemma_sub_of_sub(data: Seq<u8>, p: int, a: Seq<u8>, b: Seq<u8>)
    requires
        0 <= p,
        p + a.len() + b.len() <= data.len(),
        data.subrange(p, p + a.len() + b.len()) == a + b,
    ensures
        data.subrange(p, p + a.len()) == a,
        data.subrange(p + a.len(), p + a.len() + b.len()) == b,
{
    assert(data.subrange(p, p + a.len()) =~= a) by {
        assert forall|j: int| 0 <= j < a.len() implies data.subrange(p, p + a.len())[j] == a[j] by {
            assert(data.subrange(p, p + a.len() + b.len())[j] == (a + b)[j]);
        }
    }
    assert(data.subrange(p + a.len(), p + a.len() + b.len()) =~= b) by {
        assert forall|j: int| 0 <= j < b.len() implies data.subrange(
            p + a.len(),
            p + a.len() + b.len(),
        )[j] == b[j] by {
            assert(data.subrange(p, p + a.len() + b.len())[a.len() + j] == (a + b)[a.len() + j]);
            assert((a + b)[a.len() + j] == b[j]);
        }
    }
}

proof fn lemma_tag_parts(field: u32, wire: u64)
    requires
        wire < 8,
    ensures
        (spec_tag(field, wire) / 8) as u32 == field,
        spec_tag(field, wire) % 8 == wire,
{
}

/// Decoding the encoding of a field sequence gives the sequence back, and
/// decoding goes on at the position just after it.
pub proof fn lemma_decode_encode_from(data: Seq<u8>, p: int, fs: Seq<FieldV>, eg: Option<u32>)
    requires
        0 <= p,
        p + spec_encode_fields(fs).len() <= data.len(),
        data.subrange(p, p + spec_encode_fields(fs).len()) == spec_encode_fields(fs),
        encodable_fields(fs),
    ensures
        spec_decode_from(data, p, eg) == prepend_fields(
            fs,
            spec_decode_from(data, p + spec_encode_fields(fs).len(), eg),
        ),
    decreases fs,
{
    let enc = spec_encode_fields(fs);
    if fs.len() == 0 {
        assert(enc =~= Seq::<u8>::empty());
        if let Ok((r, e)) = spec_decode_from(data, p, eg) {
            assert(Seq::<FieldV>::empty() + r =~= r);
        }
    } else {
        let f = fs[0];
        assert(encodable_value(f.1) && encodable_fields(fs.drop_first()));
        let head = spec_encode_field(f);
        let tail = spec_encode_fields(fs.drop_first());
        assert(enc == head + tail);
        lemma_sub_of_sub(data, p, head, tail);
        let q = p + head.len();
        lemma_decode_encode_from(data, q, fs.drop_first(), eg);
        let after = spec_decode_from(data, q + tail.len(), eg);
        match f.1 {
            ValueV::Varint(v) => {
                let t = spec_varint(spec_tag(f.0, WT_VARINT));
                let vb = spec_varint(v);
                lemma_sub_of_sub(data, p, t, vb);
                lemma_read_varint_roundtrip(data, p, spec_tag(f.0, WT_VARINT));
                lemma_read_varint_roundtrip(data, p + t.len(), v);
                lemma_varint_len(spec_tag(f.0, WT_VARINT));
                lemma_tag_parts(f.0, WT_VARINT);
                lemma_prepend_assoc(seq![f], fs.drop_first(), after);
                assert(seq![f] + fs.drop_first() =~= fs);
            },
            ValueV::Bytes(b) => {
                let t = spec_varint(spec_tag(f.0, WT_LEN));
                let lb = spec_varint(b.len() as u64);
                assert(head == t + lb + b);
                lemma_sub_of_sub(data, p, t + lb, b);
                lemma_sub_of_sub(data, p, t, lb);
                lemma_read_varint_roundtrip(data, p, spec_tag(f.0, WT_LEN));
                lemma_read_varint_roundtrip(data, p + t.len(), b.len() as u64);
                lemma_varint_len(spec_tag(f.0, WT_LEN));
                lemma_tag_parts(f.0, WT_LEN);
                lemma_prepend_assoc(seq![f], fs.drop_first(), after);
                assert(seq![f] + fs.drop_first() =~= fs);
            },
            ValueV::Group(g) => {
                let t = spec_varint(spec_tag(f.0, WT_START_GROUP));
                let ge = spec_encode_fields(g);
                let te = spec_varint(spec_tag(f.0, WT_END_GROUP));
                assert(head == t + ge + te);
                lemma_sub_of_sub(data, p, t + ge, te);
                lemma_sub_of_sub(data, p, t, ge);
                lemma_read_varint_roundtrip(data, p, spec_tag(f.0, WT_START_GROUP));
                lemma_varint_len(spec_tag(f.0, WT_START_GROUP));
                lemma_tag_parts(f.0, WT_START_GROUP);
                let p1 = p + t.len();
                lemma_decode_encode_from(data, p1, g, Some(f.0));
                let pe = p1 + ge.len();
                lemma_read_varint_roundtrip(data, pe, spec_tag(f.0, WT_END_GROUP));
                lemma_varint_len(spec_tag(f.0, WT_END_GROUP));
                lemma_tag_parts(f.0, WT_END_GROUP);
                assert(spec_decode_from(data, pe, Some(f.0)) == Ok::<(Seq<FieldV>, int), Seq<char>>(
                    (Seq::empty(), pe + te.len()),
                ));
                assert(g + Seq::<FieldV>::empty() =~= g);
                lemma_prepend_assoc(seq![f], fs.drop_first(), after);
                assert(seq![f] + fs.drop_first() =~= fs);
            },
        }
    }
}

/// The codec round trip: decoding the bytes that the encoder writes for a
/// sequence of fields yields exactly that sequence.
pub proof fn lemma_decode_encode(fs: Seq<FieldV>)
    requires
        encodable_fields(fs),
    ensures
        spec_decode(spec_encode_fields(fs)) == Ok::<Seq<FieldV>, Seq<char>>(fs),
{
    let data = spec_encode_fields(fs);
    assert(data.subrange(0, data.len() as int) =~= data);
    lemma_decode_encode_from(data, 0, fs, None);
    assert(fs + Seq::<FieldV>::empty() =~= fs);
}


/// A varint read inside `b` reads the same when more bytes follow `b`.
proof fn lemma_varint_sum_extend(b: Seq<u8>, x: Seq<u8>, pos: int, k: nat)
    requires
        varint_sum(b, pos, k) is Ok,
    ensures
        varint_sum(b + x, pos, k) == varint_sum(b, pos, k),
    decreases 10 - k,
{
    if k < 10 && 0 <= pos < b.len() {
        assert((b + x)[pos] == b[pos]);
        if b[pos] >= 128 && k + 1 < 10 {
            lemma_varint_sum_extend(b, x, pos + 1, k + 1);
        }
    }
}

/// Decoding that succeeds on `b` decodes the same fields when more bytes
/// follow `b`: a group ends where it ended, and a top-level run goes on with
/// what follows `b`.
proof fn lemma_decode_extend(b: Seq<u8>, x: Seq<u8>, pos: int, eg: Option<u32>)
    requires
        0 <= pos <= b.len(),
        spec_decode_from(b, pos, eg) is Ok,
    ensures
        eg is Some ==> spec_decode_from(b + x, pos, eg) == spec_decode_from(b, pos, eg),
        eg is None ==> spec_decode_from(b + x, pos, eg) == prepend_fields(
            spec_decode_from(b, pos, eg)->Ok_0.0,
            spec_decode_from(b + x, b.len() as int, None),
        ),
    decreases b.len() - pos,
{
    let d = b + x;
    if pos >= b.len() {
        assert(eg is None);
        assert(pos == b.len());
        if let Ok((r, e)) = spec_decode_from(d, pos, None) {
            assert(Seq::<FieldV>::empty() + r =~= r);
        }
    } else {
        lemma_varint_sum_extend(b, x, pos, 0);
        lemma_varint_sum_bounds(b, pos, 0);
        let (tag, p1) = spec_read_varint(b, pos)->Ok_0;
        let field = #[verifier::truncate] ((tag / 8) as u32);
        let wire = tag % 8;
        if wire == WT_VARINT {
            lemma_varint_sum_extend(b, x, p1, 0);
            lemma_varint_sum_bounds(b, p1, 0);
            let (v, p2) = spec_read_varint(b, p1)->Ok_0;
            lemma_decode_extend(b, x, p2, eg);
            lemma_prepend_assoc(
                seq![(field, ValueV::Varint(v))],
                spec_decode_from(b, p2, eg)->Ok_0.0,
                spec_decode_from(d, b.len() as int, None),
            );
        } else if wire == WT_LEN {
            lemma_varint_sum_extend(b, x, p1, 0);
            lemma_varint_sum_bounds(b, p1, 0);
            let (len, p2) = spec_read_varint(b, p1)->Ok_0;
            assert(d.subrange(p2, p2 + len) =~= b.subrange(p2, p2 + len));
            lemma_decode_extend(b, x, p2 + len, eg);
            lemma_prepend_assoc(
                seq![(field, ValueV::Bytes(b.subrange(p2, p2 + len)))],
                spec_decode_from(b, p2 + len, eg)->Ok_0.0,
                spec_decode_from(d, b.len() as int, None),
            );
        } else if wire == WT_START_GROUP {
            lemma_decode_extend(b, x, p1, Some(field));
            let (g, p2) = spec_decode_from(b, p1, Some(field))->Ok_0;
            lemma_decode_extend(b, x, p2, eg);
            lemma_prepend_assoc(
                seq![(field, ValueV::Group(g))],
                spec_decode_from(b, p2, eg)->Ok_0.0,
                spec_decode_from(d, b.len() as int, None),
            );
        }
    }
}

/// Decoding a complete message with one varint field appended gives the
/// message's fields followed by that field.
pub proof fn law_varint_field_appends(b: Seq<u8>, fs: Seq<FieldV>, field: u32, value: u64)
    requires
        spec_decode(b) == Ok::<Seq<FieldV>, Seq<char>>(fs),
    ensures
        spec_decode(b + spec_varint_field(field, value)) == Ok::<Seq<FieldV>, Seq<char>>(
            fs.push((field, ValueV::Varint(value))),
        ),
{
    let f = (field, ValueV::Varint(value));
    lemma_field_appends(b, fs, f);
}

/// Decoding a complete message with one length-delimited field appended gives
/// the message's fields followed by that field.
pub proof fn law_len_field_appends(b: Seq<u8>, fs: Seq<FieldV>, field: u32, data: Seq<u8>)
    requires
        spec_decode(b) == Ok::<Seq<FieldV>, Seq<char>>(fs),
        data.len() < 0x1_0000_0000_0000_0000,
    ensures
        spec_decode(b + spec_len_field(field, data)) == Ok::<Seq<FieldV>, Seq<char>>(
            fs.push((field, ValueV::Bytes(data))),
        ),
{
    let f = (field, ValueV::Bytes(data));
    lemma_field_appends(b, fs, f);
}

proof fn lemma_field_appends(b: Seq<u8>, fs: Seq<FieldV>, f: FieldV)
    requires
        spec_decode(b) == Ok::<Seq<FieldV>, Seq<char>>(fs),
        encodable_value(f.1),
        !(f.1 is Group),
    ensures
        spec_decode(b + spec_encode_field(f)) == Ok::<Seq<FieldV>, Seq<char>>(fs.push(f)),
{
    let e = spec_encode_field(f);
    let d = b + e;
    let one = seq![f];
    assert(one.drop_first() =~= Seq::<FieldV>::empty());
    assert(one[0] == f);
    assert(spec_encode_fields(Seq::<FieldV>::empty()) == Seq::<u8>::empty());
    assert(encodable_fields(Seq::<FieldV>::empty()));
    assert(spec_encode_fields(one) =~= e) by {
        assert(e + Seq::<u8>::empty() =~= e);
    }
    assert(encodable_fields(one));
    lemma_decode_extend(b, e, 0, None);
    assert(d.subrange(b.len() as int, (b.len() + e.len()) as int) =~= e);
    lemma_decode_encode_from(d, b.len() as int, seq![f], None);
    assert(spec_decode_from(d, d.len() as int, None) == Ok::<(Seq<FieldV>, int), Seq<char>>(
        (Seq::empty(), d.len() as int),
    ));
    assert(fs + (seq![f] + Seq::<FieldV>::empty()) =~= fs.push(f));
}

} // verus!
