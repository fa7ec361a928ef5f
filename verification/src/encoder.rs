//! The encoder: a bulk pass over full 3-byte chunks through the pair table,
//! then a padded tail fixed by the input length modulo 3.

use vstd::prelude::*;

use crate::model::PAD;
use crate::model::ascii_chars;
use crate::model::b64_char;
use crate::model::encode_prefix;
use crate::model::encoded;
use crate::model::lemma_encode_prefix_snoc;
use crate::model::lemma_encode_split;
use crate::model::lemma_fields_bound;
use crate::model::lemma_u16_pack;
use crate::tables::forward_table;
use crate::tables::pair_forward_table;
use crate::tables::pair_fwd;

verus! {

/// Relies on String::push: appends exactly the one character.
#[verifier::external_body]
fn push_char(s: &mut String, c: char)
    ensures
        final(s)@ == old(s)@ + seq![c],
{
    s.push(c);
}

/// The two 12-bit halves of a 24-bit chunk value carry the chunk's four
/// 6-bit fields.
proof fn lemma_enc_halves(v: u32, u1: u16, u2: u16, b0: u8, b1: u8, b2: u8)
    by (bit_vector)
    requires
        v == ((b0 as u32) << 16) | ((b1 as u32) << 8) | (b2 as u32),
        u1 == ((v >> 12) & 0xfff) as u16,
        u2 == (v & 0xfff) as u16,
    ensures
        ((u1 >> 6) as u8) == (b0 >> 2),
        ((u1 & 63) as u8) == (((b0 & 3) << 4) | (b1 >> 4)),
        ((u2 >> 6) as u8) == (((b1 & 15) << 2) | (b2 >> 6)),
        ((u2 & 63) as u8) == (b2 & 63),
{
}

/// Bulk ("large chunk vectorization") pass of the encoder: appends to `out`
/// the 4-character group of every full 3-byte chunk of `s`, two output
/// characters per pair-table lookup.
pub fn lcvec_enc(s: &[u8], out: &mut Vec<u8>)
    ensures
        final(out)@ == old(out)@ + encode_prefix(s@, s@.len() as int / 3),
{
    let p = pair_forward_table();
    let n: usize = s.len();
    let chunks: usize = n / 3;
    let mut g: usize = 0;
    while g < chunks
        invariant
            n == s@.len(),
            chunks == n as int / 3,
            p@.len() == 4096,
            forall|i: int| 0 <= i < 4096 ==> p@[i] == pair_fwd(i as u16),
            g <= chunks,
            out@ == old(out)@ + encode_prefix(s@, g as int),
        decreases chunks - g,
    {
        assert(3 * (g as int + 1) <= n as int);
        let i: usize = 3 * g;
        let b0: u8 = s[i];
        let b1: u8 = s[i + 1];
        let b2: u8 = s[i + 2];
        let v: u32 = ((b0 as u32) << 16) | ((b1 as u32) << 8) | (b2 as u32);
        assert((v >> 12) & 0xfff < 4096 && v & 0xfff < 4096) by (bit_vector);
        let hi: usize = ((v >> 12) & 0xfff) as usize;
        let lo: usize = (v & 0xfff) as usize;
        let w1: u16 = p[hi];
        let w2: u16 = p[lo];
        out.push((w1 >> 8) as u8);
        out.push((w1 & 255) as u8);
        out.push((w2 >> 8) as u8);
        out.push((w2 & 255) as u8);
        proof {
            let u1: u16 = ((v >> 12) & 0xfff) as u16;
            let u2: u16 = (v & 0xfff) as u16;
            assert(hi as u16 == u1 && lo as u16 == u2);
            lemma_enc_halves(v, u1, u2, b0, b1, b2);
            lemma_u16_pack(b64_char((u1 >> 6) as u8), b64_char((u1 & 63) as u8));
            lemma_u16_pack(b64_char((u2 >> 6) as u8), b64_char((u2 & 63) as u8));
            lemma_encode_prefix_snoc(s@, g as int);
            assert(out@ =~= old(out)@ + encode_prefix(s@, g as int + 1));
        }
        g = g + 1;
    }
}

/// Encodes a byte buffer as Base64 text over `A-Z a-z 0-9 + /` with `=`
/// padding: total over all inputs, one fresh output buffer, input untouched.
pub fn encode(data: &[u8]) -> (r: String)
    ensures
        r@ == ascii_chars(encoded(data@)),
{
    let mut out: Vec<u8> = Vec::new();
    lcvec_enc(data, &mut out);
    let n: usize = data.len();
    let rem: usize = n % 3;
    if rem == 1 {
        let fwd = forward_table();
        let b0: u8 = data[n - 1];
        proof {
            lemma_fields_bound(b0, 0, 0);
        }
        out.push(fwd[(b0 >> 2) as usize]);
        out.push(fwd[((b0 & 3) << 4) as usize]);
        out.push(PAD);
        out.push(PAD);
    } else if rem == 2 {
        let fwd = forward_table();
        let b0: u8 = data[n - 2];
        let b1: u8 = data[n - 1];
        proof {
            lemma_fields_bound(b0, b1, 0);
        }
        out.push(fwd[(b0 >> 2) as usize]);
        out.push(fwd[(((b0 & 3) << 4) | (b1 >> 4)) as usize]);
        out.push(fwd[((b1 & 15) << 2) as usize]);
        out.push(PAD);
    }
    proof {
        lemma_encode_split(data@);
        assert(out@ =~= encoded(data@));
    }
    let mut r = String::new();
    let mut i: usize = 0;
    while i < out.len()
        invariant
            out@ == encoded(data@),
            i <= out@.len(),
            r@ == ascii_chars(out@).take(i as int),
        decreases out@.len() - i,
    {
        push_char(&mut r, out[i] as char);
        i = i + 1;
        proof {
            assert(r@ =~= ascii_chars(out@).take(i as int));
        }
    }
    proof {
        assert(ascii_chars(out@).take(out@.len() as int) =~= ascii_chars(out@));
    }
    r
}

} // verus!
