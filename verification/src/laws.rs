//! The codec's laws, proved once for every input: the round trip, the two
//! length laws, and the padding law.

use vstd::prelude::*;

use crate::model::PAD;
use crate::model::b64_char;
use crate::model::b64_val;
use crate::model::decode_group;
use crate::model::decode_last_group;
use crate::model::decoded;
use crate::model::encode_group;
use crate::model::encode_tail1;
use crate::model::encode_tail2;
use crate::model::encoded;
use crate::model::last_group_len;
use crate::model::lemma_char_val;
use crate::model::lemma_decode_prefix_len;
use crate::model::lemma_decode_split;
use crate::model::lemma_fields_bound;
use crate::model::lemma_group_round_trip;
use crate::model::lemma_pack_unpack;
use crate::model::lemma_tail_bits;
use crate::model::pad_count;

verus! {

/// Length law: the encoding of `x` holds exactly `4 * ceil(len(x) / 3)`
/// characters.
pub proof fn lemma_encode_length(x: Seq<u8>)
    ensures
        encoded(x).len() == 4 * ((x.len() + 2) / 3),
    decreases x.len(),
{
    if x.len() >= 3 {
        lemma_encode_length(x.skip(3));
    }
}

/// The padding characters among four given characters, counted one by one.
proof fn lemma_pad_count4(c0: u8, c1: u8, c2: u8, c3: u8)
    ensures
        pad_count(seq![c0, c1, c2, c3]) == (if c0 == PAD {
            1int
        } else {
            0int
        }) + (if c1 == PAD {
            1int
        } else {
            0int
        }) + (if c2 == PAD {
            1int
        } else {
            0int
        }) + (if c3 == PAD {
            1int
        } else {
            0int
        }),
{
    let s = seq![c0, c1, c2, c3];
    assert(s.skip(1) =~= seq![c1, c2, c3]);
    assert(seq![c1, c2, c3].skip(1) =~= seq![c2, c3]);
    assert(seq![c2, c3].skip(1) =~= seq![c3]);
    assert(seq![c3].skip(1) =~= Seq::<u8>::empty());
    reveal_with_fuel(pad_count, 5);
}

/// Padding characters are counted piecewise across a concatenation.
proof fn lemma_pad_count_concat(a: Seq<u8>, b: Seq<u8>)
    ensures
        pad_count(a + b) == pad_count(a) + pad_count(b),
    decreases a.len(),
{
    if a.len() == 0 {
        assert(a + b =~= b);
        assert(pad_count(a) == 0);
    } else {
        lemma_pad_count_concat(a.skip(1), b);
        assert((a + b).skip(1) =~= a.skip(1) + b);
        assert((a + b)[0] == a[0]);
    }
}

/// Padding law: the encoding of `x` holds 0, 2 or 1 padding characters
/// according as `len(x) mod 3` is 0, 1 or 2.
pub proof fn lemma_padding(x: Seq<u8>)
    ensures
        x.len() % 3 == 0 ==> pad_count(encoded(x)) == 0,
        x.len() % 3 == 1 ==> pad_count(encoded(x)) == 2,
        x.len() % 3 == 2 ==> pad_count(encoded(x)) == 1,
    decreases x.len(),
{
    if x.len() == 0 {
        assert(pad_count(encoded(x)) == 0);
    } else if x.len() == 1 {
        lemma_fields_bound(x[0], 0, 0);
        lemma_char_val(x[0] >> 2);
        lemma_char_val((x[0] & 3) << 4);
        lemma_pad_count4(
            encode_tail1(x[0])[0],
            encode_tail1(x[0])[1],
            encode_tail1(x[0])[2],
            encode_tail1(x[0])[3],
        );
        assert(encode_tail1(x[0]) =~= seq![
            encode_tail1(x[0])[0],
            encode_tail1(x[0])[1],
            encode_tail1(x[0])[2],
            encode_tail1(x[0])[3],
        ]);
    } else if x.len() == 2 {
        lemma_fields_bound(x[0], x[1], 0);
        lemma_char_val(x[0] >> 2);
        lemma_char_val(((x[0] & 3) << 4) | (x[1] >> 4));
        lemma_char_val((x[1] & 15) << 2);
        lemma_pad_count4(
            encode_tail2(x[0], x[1])[0],
            encode_tail2(x[0], x[1])[1],
            encode_tail2(x[0], x[1])[2],
            encode_tail2(x[0], x[1])[3],
        );
        assert(encode_tail2(x[0], x[1]) =~= seq![
            encode_tail2(x[0], x[1])[0],
            encode_tail2(x[0], x[1])[1],
            encode_tail2(x[0], x[1])[2],
            encode_tail2(x[0], x[1])[3],
        ]);
    } else {
        lemma_padding(x.skip(3));
        lemma_fields_bound(x[0], x[1], x[2]);
        lemma_char_val(x[0] >> 2);
        lemma_char_val(((x[0] & 3) << 4) | (x[1] >> 4));
        lemma_char_val(((x[1] & 15) << 2) | (x[2] >> 6));
        lemma_char_val(x[2] & 63);
        let g = encode_group(x[0], x[1], x[2]);
        lemma_pad_count4(g[0], g[1], g[2], g[3]);
        assert(g =~= seq![g[0], g[1], g[2], g[3]]);
        lemma_pad_count_concat(g, encoded(x.skip(3)));
        assert((x.len() - 3) % 3 == x.len() % 3);
    }
}

/// Decode length law: a buffer below one group decodes to nothing, and a
/// longer one to three bytes per whole group save the last, whose count the
/// padding fixes — the inverse of the length and padding laws.
pub proof fn lemma_decode_length(s: Seq<u8>)
    ensures
        s.len() < 4 ==> decoded(s).len() == 0,
        s.len() >= 4 ==> decoded(s).len() == 3 * (s.len() as int / 4 - 1) + last_group_len(
            s[4 * (s.len() as int / 4 - 1) + 2],
            s[4 * (s.len() as int / 4 - 1) + 3],
        ),
{
    if s.len() >= 4 {
        let g: int = s.len() as int / 4 - 1;
        lemma_decode_split(s);
        lemma_decode_prefix_len(s, g);
        assert(decode_last_group(s[4 * g], s[4 * g + 1], s[4 * g + 2], s[4 * g + 3]).len()
            == last_group_len(s[4 * g + 2], s[4 * g + 3]));
    }
}

/// Round trip: decoding the encoding of any byte sequence gives it back,
/// whatever its length modulo 3.
#[verifier::rlimit(50)]
pub proof fn lemma_round_trip(x: Seq<u8>)
    ensures
        decoded(encoded(x)) == x,
    decreases x.len(),
{
    if x.len() == 0 {
        assert(decoded(encoded(x)) =~= x);
    } else if x.len() == 1 {
        let e = encoded(x);
        assert(e == encode_tail1(x[0]));
        let v0: u8 = x[0] >> 2;
        let v1: u8 = (x[0] & 3) << 4;
        lemma_fields_bound(x[0], 0, 0);
        lemma_char_val(v0);
        lemma_char_val(v1);
        lemma_tail_bits(x[0], 0);
        assert(e[0] == b64_char(v0) && e[1] == b64_char(v1) && e[2] == PAD && e[3] == PAD);
        assert(b64_val(e[0]) == v0 && b64_val(e[1]) == v1);
        assert(last_group_len(e[2], e[3]) == 1);
        assert(decoded(e) == decode_last_group(e[0], e[1], e[2], e[3]));
        assert(decode_group(e[0], e[1], e[2], e[3])[0] == x[0]);
        assert(decoded(e) =~= x);
    } else if x.len() == 2 {
        let e = encoded(x);
        assert(e == encode_tail2(x[0], x[1]));
        let v0: u8 = x[0] >> 2;
        let v1: u8 = ((x[0] & 3) << 4) | (x[1] >> 4);
        let v2: u8 = (x[1] & 15) << 2;
        lemma_fields_bound(x[0], x[1], 0);
        lemma_char_val(v0);
        lemma_char_val(v1);
        lemma_char_val(v2);
        lemma_tail_bits(x[0], x[1]);
        lemma_pack_unpack(x[0], x[1], 0);
        assert(e[0] == b64_char(v0) && e[1] == b64_char(v1) && e[2] == b64_char(v2) && e[3]
            == PAD);
        assert(b64_val(e[0]) == v0 && b64_val(e[1]) == v1 && b64_val(e[2]) == v2);
        assert(e[2] != PAD);
        assert(last_group_len(e[2], e[3]) == 2);
        assert(decoded(e) == decode_last_group(e[0], e[1], e[2], e[3]));
        assert(decode_group(e[0], e[1], e[2], e[3])[0] == x[0]);
        assert(decode_group(e[0], e[1], e[2], e[3])[1] == x[1]);
        assert(decoded(e) =~= x);
    } else if x.len() == 3 {
        let e = encoded(x);
        assert(encoded(x.skip(3)) == Seq::<u8>::empty());
        let g = encode_group(x[0], x[1], x[2]);
        assert(e =~= g);
        lemma_fields_bound(x[0], x[1], x[2]);
        lemma_char_val(((x[1] & 15) << 2) | (x[2] >> 6));
        lemma_char_val(x[2] & 63);
        lemma_group_round_trip(x[0], x[1], x[2]);
        assert(e[2] == g[2] && e[3] == g[3]);
        assert(e[2] != PAD && e[3] != PAD);
        assert(last_group_len(e[2], e[3]) == 3);
        assert(decoded(e) == decode_last_group(e[0], e[1], e[2], e[3]));
        assert(decode_last_group(e[0], e[1], e[2], e[3]) =~= decode_group(
            e[0],
            e[1],
            e[2],
            e[3],
        ));
        assert(decode_group(e[0], e[1], e[2], e[3]) == seq![x[0], x[1], x[2]]);
        assert(decoded(e) =~= x);
    } else {
        lemma_round_trip(x.skip(3));
        lemma_encode_length(x.skip(3));
        let e = encoded(x);
        let g = encode_group(x[0], x[1], x[2]);
        let rest = encoded(x.skip(3));
        assert(e == g + rest);
        assert(rest.len() >= 4);
        assert(e.len() >= 8);
        assert(e[0] == g[0] && e[1] == g[1] && e[2] == g[2] && e[3] == g[3]);
        assert(e.skip(4) =~= rest);
        lemma_group_round_trip(x[0], x[1], x[2]);
        assert(decode_group(e[0], e[1], e[2], e[3]) == seq![x[0], x[1], x[2]]);
        assert(decoded(e) == decode_group(e[0], e[1], e[2], e[3]) + decoded(e.skip(4)));
        assert(decoded(e.skip(4)) == x.skip(3));
        assert(decoded(e) =~= x);
    }
}

} // verus!
