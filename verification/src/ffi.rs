//! The flat result record handed across the C ABI: fixed-size,
//! NUL-terminated UTF-8 buffers with their byte lengths.
use vstd::prelude::*;
use crate::engine::ProcessResult;
use vstd::utf8::{is_char_boundary, encode_utf8, valid_utf8, encode_utf8_valid_utf8};
use vstd::string::StringSliceAdditionalSpecFns;
use vstd::array::ArrayAdditionalExecFns;

verus! {

/// Result of processing a key event, laid out for the C ABI.
///
/// String fields are NUL-terminated UTF-8; `*_len` counts the bytes
/// without the NUL.
pub struct MzkanaResult {
    /// 1 if the input method consumed the key event; 0 if it goes to the
    /// application unchanged.
    pub consumed: u8,
    /// Current preedit (may be empty).
    pub preedit: [u8; 512],
    pub preedit_len: u32,
    /// Text to commit to the application (may be empty).
    pub commit: [u8; 512],
    pub commit_len: u32,
    /// If `consumed == 0`, the key to pass through (may be empty).
    pub passthrough_key: [u8; 64],
    pub passthrough_key_len: u32,
    /// Key to forward to the application with the modifiers
    /// `forward_modifiers`, when Mozc did not consume a modifier+key token.
    pub forward_key: [u8; 64],
    pub forward_key_len: u32,
    /// Bit 0 Shift, bit 1 Ctrl, bit 2 Alt, bit 3 Super.
    pub forward_modifiers: u8,
}

/// The longest prefix of `b`, at most `i` bytes, that ends on a character
/// boundary.
pub open spec fn char_floor(b: Seq<u8>, i: int) -> int
    decreases i,
{
    if i <= 0 {
        0
    } else if is_char_boundary(b, i) {
        i
    } else {
        char_floor(b, i - 1)
    }
}

pub open spec fn zeros(n: nat) -> Seq<u8> {
    Seq::new(n, |i: int| 0u8)
}

/// Length of a text copied into a buffer of `n` bytes: as much as fits
/// with its NUL, cut on a character boundary.
pub open spec fn fill_len(s: Seq<u8>, n: nat) -> int {
    char_floor(s, if s.len() < n - 1 {
        s.len() as int
    } else {
        n - 1
    })
}

/// A zeroed buffer of `n` bytes after the text `s` is copied into it.
pub open spec fn filled(s: Seq<u8>, n: nat) -> Seq<u8> {
    s.take(fill_len(s, n)) + seq![0u8] + zeros((n - fill_len(s, n) - 1) as nat)
}

proof fn lemma_char_floor(b: Seq<u8>, i: int)
    requires
        0 <= i,
    ensures
        0 <= char_floor(b, i) <= i,
    decreases i,
{
    if i > 0 && !is_char_boundary(b, i) {
        lemma_char_floor(b, i - 1);
    }
}

/// Copy as much of `src` as fits, with a NUL after it, into `dst`, cutting
/// on a character boundary. Returns the number of text bytes copied.
fn fill_buf<const N: usize>(dst: &mut [u8; N], src: &str) -> (len: u32)
    requires
        0 < N <= 512,
    ensures
        len == fill_len(src.spec_bytes(), N as nat),
        final(dst)@ == src.spec_bytes().take(len as int) + seq![0u8] + old(dst)@.skip(len + 1),
{
    let bytes = src.as_bytes();
    let ghost b = src.spec_bytes();
    let max = N - 1;
    let mut len: usize = if bytes.len() < max {
        bytes.len()
    } else {
        max
    };
    let ghost start = len as int;
    proof {
        lemma_char_floor(b, start);
        encode_utf8_valid_utf8(src@);
    }
    while !src.is_char_boundary(len)
        invariant
            len <= start,
            start < N,
            start <= b.len(),
            b == src.spec_bytes(),
            valid_utf8(b),
            char_floor(b, start) == char_floor(b, len as int),
        decreases len,
    {
        proof {
            if len == 0 {
                assert(is_char_boundary(b, 0));
            }
        }
        len = len - 1;
    }
    assert(char_floor(b, len as int) == len);
    let ghost d0 = dst@;
    let mut j: usize = 0;
    while j < len
        invariant
            j <= len,
            len < N,
            len <= b.len(),
            bytes@ == b,
            dst@.len() == N,
            d0.len() == N,
            forall|k: int| 0 <= k < j ==> dst@[k] == b[k],
            forall|k: int| j <= k < N ==> dst@[k] == d0[k],
        decreases len - j,
    {
        dst[j] = bytes[j];
        j = j + 1;
    }
    dst[len] = 0;
    assert(dst@ =~= b.take(len as int) + seq![0u8] + d0.skip(len + 1));
    len as u32
}

impl Default for MzkanaResult {
    fn default() -> (r: Self)
        ensures
            r.consumed == 0,
            r.preedit@ == zeros(512),
            r.preedit_len == 0,
            r.commit@ == zeros(512),
            r.commit_len == 0,
            r.passthrough_key@ == zeros(64),
            r.passthrough_key_len == 0,
            r.forward_key@ == zeros(64),
            r.forward_key_len == 0,
            r.forward_modifiers == 0,
    {
        let r = MzkanaResult {
            consumed: 0,
            preedit: [0u8; 512],
            preedit_len: 0,
            commit: [0u8; 512],
            commit_len: 0,
            passthrough_key: [0u8; 64],
            passthrough_key_len: 0,
            forward_key: [0u8; 64],
            forward_key_len: 0,
            forward_modifiers: 0,
        };
        assert(r.preedit@ =~= zeros(512));
        assert(r.commit@ =~= zeros(512));
        assert(r.passthrough_key@ =~= zeros(64));
        assert(r.forward_key@ =~= zeros(64));
        r
    }
}

/// The C record for a result: each text copied into its buffer as far as it
/// fits; the forward modifiers only with a forward key.
pub fn result_from(out: ProcessResult) -> (r: MzkanaResult)
    ensures
        r.consumed == (if out.consumed {
            1u8
        } else {
            0u8
        }),
        r.preedit@ == filled(encode_utf8(out.preedit@), 512),
        r.preedit_len == fill_len(encode_utf8(out.preedit@), 512),
        match out.commit {
            Some(c) => r.commit@ == filled(encode_utf8(c@), 512) && r.commit_len == fill_len(
                encode_utf8(c@),
                512,
            ),
            None => r.commit@ == zeros(512) && r.commit_len == 0,
        },
        match out.passthrough_key {
            Some(p) => r.passthrough_key@ == filled(encode_utf8(p@), 64) && r.passthrough_key_len
                == fill_len(encode_utf8(p@), 64),
            None => r.passthrough_key@ == zeros(64) && r.passthrough_key_len == 0,
        },
        match out.forward_key {
            Some(k) => r.forward_key@ == filled(encode_utf8(k@), 64) && r.forward_key_len
                == fill_len(encode_utf8(k@), 64) && r.forward_modifiers == out.forward_mods,
            None => r.forward_key@ == zeros(64) && r.forward_key_len == 0 && r.forward_modifiers == 0,
        },
{
    let mut r = MzkanaResult::default();
    r.consumed = if out.consumed {
        1
    } else {
        0
    };
    proof {
        lemma_filled(encode_utf8(out.preedit@), 512);
    }
    r.preedit_len = fill_buf(&mut r.preedit, out.preedit.as_str());
    match &out.commit {
        Some(c) => {
            proof {
                lemma_filled(encode_utf8(c@), 512);
            }
            r.commit_len = fill_buf(&mut r.commit, c.as_str());
        },
        None => {},
    }
    match &out.passthrough_key {
        Some(p) => {
            proof {
                lemma_filled(encode_utf8(p@), 64);
            }
            r.passthrough_key_len = fill_buf(&mut r.passthrough_key, p.as_str());
        },
        None => {},
    }
    match &out.forward_key {
        Some(k) => {
            proof {
                lemma_filled(encode_utf8(k@), 64);
            }
            r.forward_key_len = fill_buf(&mut r.forward_key, k.as_str());
            r.forward_modifiers = out.forward_mods;
        },
        None => {},
    }
    r
}

/// Copying into a zeroed buffer gives `filled`.
proof fn lemma_filled(s: Seq<u8>, n: nat)
    requires
        n > 0,
    ensures
        0 <= fill_len(s, n) < n,
        fill_len(s, n) <= s.len(),
        s.take(fill_len(s, n)) + seq![0u8] + zeros(n).skip(fill_len(s, n) + 1) == filled(s, n),
{
    let m = if s.len() < n - 1 {
        s.len() as int
    } else {
        n - 1
    };
    lemma_char_floor(s, m);
    let l = fill_len(s, n);
    assert(zeros(n).skip(l + 1) =~= zeros((n - l - 1) as nat));
}

} // verus!
