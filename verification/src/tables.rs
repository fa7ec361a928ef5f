//! The four lookup tables: forward and reverse single-character tables, and
//! the pair tables that serve two characters per lookup. Each builder's
//! contract ties every entry to the model's alphabet functions.

use vstd::prelude::*;

use crate::model::b64_char;
use crate::model::b64_val;

verus! {

/// A pair-forward entry: the two characters of a 12-bit value, first
/// character in the high byte.
pub open spec fn pair_fwd(w: u16) -> u16 {
    ((b64_char((w >> 6) as u8) as u16) << 8) | (b64_char((w & 63) as u8) as u16)
}

/// A pair-reverse entry: the 12-bit value of two packed characters, first
/// character in the high byte.
pub open spec fn pair_rev(w: u16) -> u16 {
    ((b64_val((w >> 8) as u8) as u16) << 6) | (b64_val((w & 255) as u8) as u16)
}

/// FORWARD: the 64 alphabet characters, indexed by 6-bit value.
pub(crate) fn forward_table() -> (t: Vec<u8>)
    ensures
        t@.len() == 64,
        forall|i: int| 0 <= i < 64 ==> t@[i] == b64_char(i as u8),
{
    let mut t: Vec<u8> = Vec::new();
    let mut v: u8 = 0;
    while v < 64
        invariant
            v <= 64,
            t@.len() == v as int,
            forall|i: int| 0 <= i < v as int ==> t@[i] == b64_char(i as u8),
        decreases 64 - v,
    {
        let c: u8 = if v < 26 {
            v + 65
        } else if v < 52 {
            v + 71
        } else if v < 62 {
            v - 4
        } else if v == 62 {
            43
        } else {
            47
        };
        t.push(c);
        v = v + 1;
    }
    t
}

/// PAIR_FORWARD: 4096 entries, one per 12-bit value, each holding the two
/// packed output characters.
pub(crate) fn pair_forward_table() -> (t: Vec<u16>)
    ensures
        t@.len() == 4096,
        forall|i: int| 0 <= i < 4096 ==> t@[i] == pair_fwd(i as u16),
{
    let fwd = forward_table();
    let mut t: Vec<u16> = Vec::new();
    let mut v: usize = 0;
    while v < 4096
        invariant
            v <= 4096,
            t@.len() == v as int,
            fwd@.len() == 64,
            forall|i: int| 0 <= i < 64 ==> fwd@[i] == b64_char(i as u8),
            forall|i: int| 0 <= i < v as int ==> t@[i] == pair_fwd(i as u16),
        decreases 4096 - v,
    {
        let hi: usize = v >> 6;
        let lo: usize = v & 63;
        assert(v >> 6 < 64 && v & 63 < 64) by (bit_vector)
            requires
                v < 4096,
        ;
        let e: u16 = ((fwd[hi] as u16) << 8) | (fwd[lo] as u16);
        proof {
            assert(((v as u16) >> 6) as u8 == (v >> 6) as u8 && ((v as u16) & 63) as u8 == (v
                & 63) as u8 && (v >> 6) as u8 as int == v >> 6 && (v & 63) as u8 as int == v
                & 63) by (bit_vector)
                requires
                    v < 4096,
            ;
        }
        t.push(e);
        v = v + 1;
    }
    t
}

/// REVERSE: 256 entries mapping an ASCII byte to its 6-bit value; entries
/// for bytes outside the alphabet stay 0.
pub(crate) fn reverse_table() -> (t: Vec<u8>)
    ensures
        t@.len() == 256,
        forall|i: int| 0 <= i < 256 ==> t@[i] == b64_val(i as u8),
{
    let mut t: Vec<u8> = Vec::new();
    let mut v: usize = 0;
    while v < 256
        invariant
            v <= 256,
            t@.len() == v as int,
            forall|i: int| 0 <= i < v as int ==> t@[i] == b64_val(i as u8),
        decreases 256 - v,
    {
        let c: u8 = v as u8;
        let e: u8 = if 65 <= c && c <= 90 {
            c - 65
        } else if 97 <= c && c <= 122 {
            c - 71
        } else if 48 <= c && c <= 57 {
            c + 4
        } else if c == 43 {
            62
        } else if c == 47 {
            63
        } else {
            0
        };
        t.push(e);
        v = v + 1;
    }
    t
}

/// PAIR_REVERSE: 65536 entries mapping two packed input characters to the
/// 12-bit value they carry.
pub(crate) fn pair_reverse_table() -> (t: Vec<u16>)
    ensures
        t@.len() == 65536,
        forall|i: int| 0 <= i < 65536 ==> t@[i] == pair_rev(i as u16),
{
    let rev = reverse_table();
    let mut t: Vec<u16> = Vec::new();
    let mut v: usize = 0;
    while v < 65536
        invariant
            v <= 65536,
            t@.len() == v as int,
            rev@.len() == 256,
            forall|i: int| 0 <= i < 256 ==> rev@[i] == b64_val(i as u8),
            forall|i: int| 0 <= i < v as int ==> t@[i] == pair_rev(i as u16),
        decreases 65536 - v,
    {
        let hi: usize = v >> 8;
        let lo: usize = v & 255;
        assert(v >> 8 < 256 && v & 255 < 256) by (bit_vector)
            requires
                v < 65536,
        ;
        let e: u16 = ((rev[hi] as u16) << 6) | (rev[lo] as u16);
        proof {
            assert(((v as u16) >> 8) as u8 == (v >> 8) as u8 && ((v as u16) & 255) as u8 == (v
                & 255) as u8 && (v >> 8) as u8 as int == v >> 8 && (v & 255) as u8 as int == v
                & 255) by (bit_vector)
                requires
                    v < 65536,
            ;
        }
        t.push(e);
        v = v + 1;
    }
    t
}

} // verus!
