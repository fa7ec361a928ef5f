//! Mathematical model of the codec: what encoding and decoding mean on byte
//! sequences, independent of the table-driven executable algorithms.

use vstd::prelude::*;

verus! {

/// The ASCII code of the padding character `=`.
pub const PAD: u8 = 61;

/// The standard Base64 alphabet: the ASCII character of a 6-bit value.
/// Meaningful for `v < 64`.
pub open spec fn b64_char(v: u8) -> u8 {
    if v < 26 {
        (v + 65) as u8  // 'A'..='Z'
    } else if v < 52 {
        (v + 71) as u8  // 'a'..='z'
    } else if v < 62 {
        (v - 4) as u8  // '0'..='9'
    } else if v == 62 {
        43  // '+'
    } else {
        47  // '/'
    }
}

/// The 6-bit value of an ASCII character; 0 for bytes outside the alphabet,
/// mirroring the executable reverse table, which leaves such entries at 0.
pub open spec fn b64_val(c: u8) -> u8 {
    if 65 <= c && c <= 90 {
        (c - 65) as u8
    } else if 97 <= c && c <= 122 {
        (c - 71) as u8
    } else if 48 <= c && c <= 57 {
        (c + 4) as u8
    } else if c == 43 {
        62
    } else if c == 47 {
        63
    } else {
        0
    }
}

/// The four characters that encode one full 3-byte chunk.
pub open spec fn encode_group(b0: u8, b1: u8, b2: u8) -> Seq<u8> {
    seq![
        b64_char(b0 >> 2),
        b64_char(((b0 & 3) << 4) | (b1 >> 4)),
        b64_char(((b1 & 15) << 2) | (b2 >> 6)),
        b64_char(b2 & 63),
    ]
}

/// The final group when one input byte remains: two characters, two pads.
pub open spec fn encode_tail1(b0: u8) -> Seq<u8> {
    seq![b64_char(b0 >> 2), b64_char((b0 & 3) << 4), PAD, PAD]
}

/// The final group when two input bytes remain: three characters, one pad.
pub open spec fn encode_tail2(b0: u8, b1: u8) -> Seq<u8> {
    seq![
        b64_char(b0 >> 2),
        b64_char(((b0 & 3) << 4) | (b1 >> 4)),
        b64_char((b1 & 15) << 2),
        PAD,
    ]
}

/// The Base64 encoding of a byte sequence, as ASCII bytes.
pub open spec fn encoded(s: Seq<u8>) -> Seq<u8>
    decreases s.len(),
{
    if s.len() == 0 {
        Seq::<u8>::empty()
    } else if s.len() == 1 {
        encode_tail1(s[0])
    } else if s.len() == 2 {
        encode_tail2(s[0], s[1])
    } else {
        encode_group(s[0], s[1], s[2]) + encoded(s.skip(3))
    }
}

/// The three bytes carried by one 4-character group.
pub open spec fn decode_group(c0: u8, c1: u8, c2: u8, c3: u8) -> Seq<u8> {
    seq![
        (b64_val(c0) << 2) | (b64_val(c1) >> 4),
        ((b64_val(c1) & 15) << 4) | (b64_val(c2) >> 2),
        ((b64_val(c2) & 3) << 6) | b64_val(c3),
    ]
}

/// How many decoded bytes the final group carries, read off its padding:
/// a pad at position 2 leaves one byte, a pad at position 3 leaves two,
/// no pad leaves three.
pub open spec fn last_group_len(c2: u8, c3: u8) -> int {
    if c2 == PAD {
        1
    } else if c3 == PAD {
        2
    } else {
        3
    }
}

/// The bytes carried by the final 4-character group, padding inspected.
pub open spec fn decode_last_group(c0: u8, c1: u8, c2: u8, c3: u8) -> Seq<u8> {
    decode_group(c0, c1, c2, c3).take(last_group_len(c2, c3))
}

/// The decoding of an ASCII buffer: empty when shorter than one group;
/// otherwise every full 4-character group but the last yields three bytes,
/// and the last is decoded padding-aware. Bytes after the last whole group
/// of a misaligned buffer are ignored.
pub open spec fn decoded(s: Seq<u8>) -> Seq<u8>
    decreases s.len(),
{
    if s.len() < 4 {
        Seq::<u8>::empty()
    } else if s.len() < 8 {
        decode_last_group(s[0], s[1], s[2], s[3])
    } else {
        decode_group(s[0], s[1], s[2], s[3]) + decoded(s.skip(4))
    }
}

/// The ASCII bytes of an encoding, read as characters.
pub open spec fn ascii_chars(s: Seq<u8>) -> Seq<char> {
    Seq::new(s.len(), |i: int| s[i] as char)
}

/// The concatenation of the first `k` full 3-byte chunks' groups: what the
/// bulk pass of the encoder emits.
pub open spec fn encode_prefix(s: Seq<u8>, k: int) -> Seq<u8>
    decreases k,
{
    if k <= 0 {
        Seq::<u8>::empty()
    } else {
        encode_group(s[0], s[1], s[2]) + encode_prefix(s.skip(3), k - 1)
    }
}

/// The bytes of the first `k` 4-character groups, all taken as full groups:
/// what the bulk pass of the decoder writes.
pub open spec fn decode_prefix(s: Seq<u8>, k: int) -> Seq<u8>
    decreases k,
{
    if k <= 0 {
        Seq::<u8>::empty()
    } else {
        decode_group(s[0], s[1], s[2], s[3]) + decode_prefix(s.skip(4), k - 1)
    }
}

/// The characters the encoder emits after the bulk pass, fixed by the
/// remainder of the input length modulo 3.
pub open spec fn encode_tail(s: Seq<u8>) -> Seq<u8> {
    if s.len() % 3 == 1 {
        encode_tail1(s[s.len() - 1])
    } else if s.len() % 3 == 2 {
        encode_tail2(s[s.len() - 2], s[s.len() - 1])
    } else {
        Seq::<u8>::empty()
    }
}

/// How many padding characters a sequence holds.
pub open spec fn pad_count(s: Seq<u8>) -> int
    decreases s.len(),
{
    if s.len() == 0 {
        0
    } else {
        (if s[0] == PAD {
            1int
        } else {
            0int
        }) + pad_count(s.skip(1))
    }
}

/// Every alphabet character decodes back to its 6-bit value, and no
/// alphabet character is the padding character.
pub proof fn lemma_char_val(v: u8)
    requires
        v < 64,
    ensures
        b64_val(b64_char(v)) == v,
        b64_char(v) != PAD,
{
}

/// The reverse mapping never exceeds six bits.
pub proof fn lemma_val_bound(c: u8)
    ensures
        b64_val(c) < 64,
{
}

/// The four 6-bit fields cut out of a 3-byte chunk are in range.
pub proof fn lemma_fields_bound(b0: u8, b1: u8, b2: u8)
    by (bit_vector)
    ensures
        (b0 >> 2) < 64,
        (((b0 & 3) << 4) | (b1 >> 4)) < 64,
        ((b0 & 3) << 4) < 64,
        (((b1 & 15) << 2) | (b2 >> 6)) < 64,
        ((b1 & 15) << 2) < 64,
        (b2 & 63) < 64,
{
}

/// Reassembling the four 6-bit fields of a chunk gives back its bytes.
pub proof fn lemma_pack_unpack(b0: u8, b1: u8, b2: u8)
    by (bit_vector)
    ensures
        (((b0 >> 2) << 2) | ((((b0 & 3) << 4) | (b1 >> 4)) >> 4)) == b0,
        ((((((b0 & 3) << 4) | (b1 >> 4)) & 15) << 4) | ((((b1 & 15) << 2) | (b2 >> 6)) >> 2))
            == b1,
        ((((((b1 & 15) << 2) | (b2 >> 6)) & 3) << 6) | (b2 & 63)) == b2,
{
}

/// Reassembling the fields of a padded tail gives back its bytes.
pub proof fn lemma_tail_bits(b0: u8, b1: u8)
    by (bit_vector)
    ensures
        (((b0 >> 2) << 2) | (((b0 & 3) << 4) >> 4)) == b0,
        ((((((b0 & 3) << 4) | (b1 >> 4)) & 15) << 4) | (((b1 & 15) << 2) >> 2)) == b1,
{
}

/// Packing two bytes into a 16-bit word keeps both recoverable.
pub proof fn lemma_u16_pack(a: u8, b: u8)
    by (bit_vector)
    ensures
        (((((a as u16) << 8) | (b as u16)) >> 8) as u8) == a,
        ((((a as u16) << 8) | (b as u16)) & 255) as u8 == b,
{
}

/// Taking one more chunk into the bulk prefix appends that chunk's group.
pub proof fn lemma_encode_prefix_snoc(s: Seq<u8>, k: int)
    requires
        0 <= k,
        3 * (k + 1) <= s.len(),
    ensures
        encode_prefix(s, k + 1) == encode_prefix(s, k) + encode_group(
            s[3 * k],
            s[3 * k + 1],
            s[3 * k + 2],
        ),
    decreases k,
{
    if k == 0 {
        assert(encode_prefix(s.skip(3), 0) == Seq::<u8>::empty());
        assert(encode_prefix(s, 0) == Seq::<u8>::empty());
        assert(encode_prefix(s, 1) =~= encode_prefix(s, 0) + encode_group(s[0], s[1], s[2]));
    } else {
        lemma_encode_prefix_snoc(s.skip(3), k - 1);
        assert(s.skip(3)[3 * (k - 1)] == s[3 * k]);
        assert(s.skip(3)[3 * (k - 1) + 1] == s[3 * k + 1]);
        assert(s.skip(3)[3 * (k - 1) + 2] == s[3 * k + 2]);
        assert(encode_prefix(s, k + 1) =~= encode_prefix(s, k) + encode_group(
            s[3 * k],
            s[3 * k + 1],
            s[3 * k + 2],
        ));
    }
}

/// The encoding is the bulk prefix of all full chunks followed by the tail.
pub proof fn lemma_encode_split(s: Seq<u8>)
    ensures
        encoded(s) == encode_prefix(s, s.len() as int / 3) + encode_tail(s),
    decreases s.len(),
{
    let n: int = s.len() as int;
    if n < 3 {
        assert(encoded(s) =~= encode_prefix(s, n / 3) + encode_tail(s));
    } else {
        lemma_encode_split(s.skip(3));
        assert((n - 3) % 3 == n % 3);
        assert((n - 3) / 3 == n / 3 - 1);
        if n % 3 == 1 {
            assert(s.skip(3)[n - 3 - 1] == s[n - 1]);
        } else if n % 3 == 2 {
            assert(s.skip(3)[n - 3 - 2] == s[n - 2]);
            assert(s.skip(3)[n - 3 - 1] == s[n - 1]);
        }
        assert(encode_tail(s.skip(3)) == encode_tail(s));
        assert(encoded(s) =~= encode_prefix(s, n / 3) + encode_tail(s));
    }
}

/// The bulk decode prefix of `k` groups holds exactly `3 * k` bytes.
pub proof fn lemma_decode_prefix_len(s: Seq<u8>, k: int)
    requires
        0 <= k,
    ensures
        decode_prefix(s, k).len() == 3 * k,
    decreases k,
{
    if k > 0 {
        lemma_decode_prefix_len(s.skip(4), k - 1);
    }
}

/// Taking one more group into the bulk prefix appends that group's bytes.
pub proof fn lemma_decode_prefix_snoc(s: Seq<u8>, k: int)
    requires
        0 <= k,
        4 * (k + 1) <= s.len(),
    ensures
        decode_prefix(s, k + 1) == decode_prefix(s, k) + decode_group(
            s[4 * k],
            s[4 * k + 1],
            s[4 * k + 2],
            s[4 * k + 3],
        ),
    decreases k,
{
    if k == 0 {
        assert(decode_prefix(s.skip(4), 0) == Seq::<u8>::empty());
        assert(decode_prefix(s, 0) == Seq::<u8>::empty());
        assert(decode_prefix(s, 1) =~= decode_prefix(s, 0) + decode_group(s[0], s[1], s[2], s[3]));
    } else {
        lemma_decode_prefix_snoc(s.skip(4), k - 1);
        assert(s.skip(4)[4 * (k - 1)] == s[4 * k]);
        assert(s.skip(4)[4 * (k - 1) + 1] == s[4 * k + 1]);
        assert(s.skip(4)[4 * (k - 1) + 2] == s[4 * k + 2]);
        assert(s.skip(4)[4 * (k - 1) + 3] == s[4 * k + 3]);
        assert(decode_prefix(s, k + 1) =~= decode_prefix(s, k) + decode_group(
            s[4 * k],
            s[4 * k + 1],
            s[4 * k + 2],
            s[4 * k + 3],
        ));
    }
}

/// The decoding of a buffer of at least one group is the bulk prefix of all
/// groups but the last, followed by the padding-aware last group.
pub proof fn lemma_decode_split(s: Seq<u8>)
    requires
        s.len() >= 4,
    ensures
        decoded(s) == decode_prefix(s, s.len() as int / 4 - 1) + decode_last_group(
            s[4 * (s.len() as int / 4 - 1)],
            s[4 * (s.len() as int / 4 - 1) + 1],
            s[4 * (s.len() as int / 4 - 1) + 2],
            s[4 * (s.len() as int / 4 - 1) + 3],
        ),
    decreases s.len(),
{
    let n: int = s.len() as int;
    let g: int = n / 4;
    if n < 8 {
        assert(g == 1);
        assert(decode_prefix(s, 0) == Seq::<u8>::empty());
        assert(decoded(s) =~= decode_prefix(s, 0) + decode_last_group(s[0], s[1], s[2], s[3]));
    } else {
        lemma_decode_split(s.skip(4));
        assert((n - 4) / 4 == g - 1);
        assert(s.skip(4)[4 * (g - 2)] == s[4 * (g - 1)]);
        assert(s.skip(4)[4 * (g - 2) + 1] == s[4 * (g - 1) + 1]);
        assert(s.skip(4)[4 * (g - 2) + 2] == s[4 * (g - 1) + 2]);
        assert(s.skip(4)[4 * (g - 2) + 3] == s[4 * (g - 1) + 3]);
        assert(decoded(s) =~= decode_prefix(s, g - 1) + decode_last_group(
            s[4 * (g - 1)],
            s[4 * (g - 1) + 1],
            s[4 * (g - 1) + 2],
            s[4 * (g - 1) + 3],
        ));
    }
}

/// Decoding the group that encodes a full chunk restores the chunk.
pub proof fn lemma_group_round_trip(b0: u8, b1: u8, b2: u8)
    ensures
        decode_group(
            encode_group(b0, b1, b2)[0],
            encode_group(b0, b1, b2)[1],
            encode_group(b0, b1, b2)[2],
            encode_group(b0, b1, b2)[3],
        ) == seq![b0, b1, b2],
{
    lemma_fields_bound(b0, b1, b2);
    lemma_char_val(b0 >> 2);
    lemma_char_val(((b0 & 3) << 4) | (b1 >> 4));
    lemma_char_val(((b1 & 15) << 2) | (b2 >> 6));
    lemma_char_val(b2 & 63);
    lemma_pack_unpack(b0, b1, b2);
    assert(decode_group(
        encode_group(b0, b1, b2)[0],
        encode_group(b0, b1, b2)[1],
        encode_group(b0, b1, b2)[2],
        encode_group(b0, b1, b2)[3],
    ) =~= seq![b0, b1, b2]);
}

} // verus!
