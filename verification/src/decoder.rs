//! The decoder: a bulk in-place pass through the pair-reverse table, then a
//! padding-aware final group through the reverse table. The decoded bytes
//! reuse the input buffer's storage; the write cursor trails the read
//! cursor, so no group is overwritten before it is read.

use vstd::prelude::*;

use crate::model::PAD;
use crate::model::b64_val;
use crate::model::decode_prefix;
use crate::model::decoded;
use crate::model::lemma_decode_prefix_len;
use crate::model::lemma_decode_prefix_snoc;
use crate::model::lemma_decode_split;
use crate::model::lemma_u16_pack;
use crate::model::lemma_val_bound;
use crate::tables::pair_rev;
use crate::tables::pair_reverse_table;
use crate::tables::reverse_table;

verus! {

/// A 24-bit group value assembled from two 12-bit halves splits into the
/// three bytes the group carries.
proof fn lemma_dec_halves(v: u32, w1: u16, w2: u16, a: u8, b: u8, c: u8, d: u8)
    by (bit_vector)
    requires
        a < 64,
        b < 64,
        c < 64,
        d < 64,
        w1 == ((a as u16) << 6) | (b as u16),
        w2 == ((c as u16) << 6) | (d as u16),
        v == ((w1 as u32) << 12) | (w2 as u32),
    ensures
        ((v >> 16) as u8) == ((a << 2) | (b >> 4)),
        ((v >> 8) as u8) == (((b & 15) << 4) | (c >> 2)),
        (v as u8) == (((c & 3) << 6) | d),
{
}

/// Bulk ("large chunk vectorization") pass of the decoder, in place: group
/// `g` is read at positions `4g..4g+4` and its three bytes are written at
/// `3g..3g+3`, one pair-reverse lookup per two characters. Positions from
/// `3 * groups` on are left as they were.
pub fn lcvec_dec(data: &mut Vec<u8>, groups: usize)
    requires
        4 * (groups as int) <= old(data)@.len(),
    ensures
        final(data)@.len() == old(data)@.len(),
        forall|j: int|
            0 <= j < 3 * (groups as int) ==> final(data)@[j] == decode_prefix(
                old(data)@,
                groups as int,
            )[j],
        forall|j: int|
            3 * (groups as int) <= j < old(data)@.len() ==> final(data)@[j] == old(data)@[j],
{
    let prt = pair_reverse_table();
    let n: usize = data.len();
    let mut g: usize = 0;
    while g < groups
        invariant
            4 * (groups as int) <= data@.len(),
            data@.len() == n as int,
            data@.len() == old(data)@.len(),
            g <= groups,
            prt@.len() == 65536,
            forall|i: int| 0 <= i < 65536 ==> prt@[i] == pair_rev(i as u16),
            forall|j: int|
                0 <= j < 3 * (g as int) ==> data@[j] == decode_prefix(old(data)@, g as int)[j],
            forall|j: int| 3 * (g as int) <= j < data@.len() ==> data@[j] == old(data)@[j],
        decreases groups - g,
    {
        let i: usize = 4 * g;
        let c0: u8 = data[i];
        let c1: u8 = data[i + 1];
        let c2: u8 = data[i + 2];
        let c3: u8 = data[i + 3];
        let idx1: usize = ((c0 as usize) << 8) | (c1 as usize);
        let idx2: usize = ((c2 as usize) << 8) | (c3 as usize);
        assert(((c0 as usize) << 8) | (c1 as usize) < 65536 && ((((c0 as usize) << 8) | (
        c1 as usize)) as u16) == (((c0 as u16) << 8) | (c1 as u16))) by (bit_vector);
        assert(((c2 as usize) << 8) | (c3 as usize) < 65536 && ((((c2 as usize) << 8) | (
        c3 as usize)) as u16) == (((c2 as u16) << 8) | (c3 as u16))) by (bit_vector);
        let w1: u16 = prt[idx1];
        let w2: u16 = prt[idx2];
        let v: u32 = ((w1 as u32) << 12) | (w2 as u32);
        let j: usize = 3 * g;
        proof {
            lemma_u16_pack(c0, c1);
            lemma_u16_pack(c2, c3);
            lemma_val_bound(c0);
            lemma_val_bound(c1);
            lemma_val_bound(c2);
            lemma_val_bound(c3);
            lemma_dec_halves(v, w1, w2, b64_val(c0), b64_val(c1), b64_val(c2), b64_val(c3));
        }
        data[j] = (v >> 16) as u8;
        data[j + 1] = (v >> 8) as u8;
        data[j + 2] = v as u8;
        proof {
            lemma_decode_prefix_snoc(old(data)@, g as int);
            lemma_decode_prefix_len(old(data)@, g as int);
            lemma_decode_prefix_len(old(data)@, g as int + 1);
        }
        g = g + 1;
    }
}

/// Decodes Base64 in place: the buffer's own storage receives the decoded
/// bytes, and the buffer is cut to the decoded length. A buffer shorter
/// than one 4-character group decodes to empty. Input is not validated:
/// a byte outside the alphabet contributes the reverse table's zero entry,
/// and only trailing bytes short of a whole group are ignored.
pub fn decode(data: &mut Vec<u8>)
    ensures
        final(data)@ == decoded(old(data)@),
{
    let n: usize = data.len();
    if n < 4 {
        data.truncate(0);
        return;
    }
    let groups: usize = n / 4;
    assert(4 * (groups as int) <= n as int);
    lcvec_dec(data, groups - 1);
    let rt = reverse_table();
    let p: usize = 4 * (groups - 1);
    let c0: u8 = data[p];
    let c1: u8 = data[p + 1];
    let c2: u8 = data[p + 2];
    let c3: u8 = data[p + 3];
    assert(c0 == old(data)@[p as int] && c1 == old(data)@[p as int + 1] && c2 == old(
        data,
    )@[p as int + 2] && c3 == old(data)@[p as int + 3]);
    let a: u8 = rt[c0 as usize];
    let b: u8 = rt[c1 as usize];
    let c: u8 = rt[c2 as usize];
    let d: u8 = rt[c3 as usize];
    let q: usize = 3 * (groups - 1);
    let last_len: usize = if c2 == PAD {
        1
    } else if c3 == PAD {
        2
    } else {
        3
    };
    data[q] = (a << 2) | (b >> 4);
    if last_len >= 2 {
        data[q + 1] = ((b & 15) << 4) | (c >> 2);
    }
    if last_len == 3 {
        data[q + 2] = ((c & 3) << 6) | d;
    }
    data.truncate(q + last_len);
    proof {
        lemma_decode_split(old(data)@);
        lemma_decode_prefix_len(old(data)@, groups as int - 1);
        assert(data@ =~= decoded(old(data)@));
    }
}

} // verus!
