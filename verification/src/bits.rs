//! Little-endian bit packing of fixed-width words into byte buffers: the
//! shared machinery of every fixed-length binary encoding (public keys,
//! private keys and ciphertexts).
//!
//! Bit `pos` of a byte sequence is bit `pos % 8` of byte `pos / 8`; word
//! `i` of width `w` occupies bits `i*w .. i*w + w`, least significant
//! first.

use vstd::prelude::*;
use vstd::arithmetic::div_mod::{lemma_fundamental_div_mod, lemma_fundamental_div_mod_converse};

verus! {

/// Bit number `pos` of the byte sequence, as 0 or 1.
pub open spec fn byte_bit(b: Seq<u8>, pos: int) -> u16 {
    ((b[pos / 8] >> ((pos % 8) as u8)) & 1) as u16
}

/// Bit number `pos` of the word sequence under width `w`, as 0 or 1.
pub open spec fn word_bit(s: Seq<u16>, w: u16, pos: int) -> u16 {
    (s[pos / (w as int)] >> ((pos % (w as int)) as u16)) & 1
}

/// The value of word `i` rebuilt from the first `j` of its `w` bits in
/// the byte sequence, least significant bit first.
pub open spec fn word_val_prefix(b: Seq<u8>, w: u16, i: int, j: int) -> int
    decreases j,
{
    if j <= 0 {
        0
    } else {
        word_val_prefix(b, w, i, j - 1) + byte_bit(b, i * (w as int) + (j - 1)) * (1u16 << (
        (j - 1) as u16))
    }
}

/// The value of word `i` of width `w` read from the byte sequence.
pub open spec fn word_val(b: Seq<u8>, w: u16, i: int) -> int {
    word_val_prefix(b, w, i, w as int)
}

/// The low `j` bits of `c` rebuilt into a value, least significant first.
pub open spec fn rebuild(c: u16, j: int) -> int
    decreases j,
{
    if j <= 0 {
        0
    } else {
        rebuild(c, j - 1) + ((c >> ((j - 1) as u16)) & 1) * (1u16 << ((j - 1) as u16))
    }
}

/// Rebuilding all `w` bits of a `w`-bit value gives the value back.
pub proof fn lemma_rebuild_id(c: u16, w: u16)
    requires
        1 <= w <= 15,
        c < (1u16 << w),
    ensures
        rebuild(c, w as int) == c,
{
    lemma_rebuild_matches_mask(c, w as int);
    assert(c & (((1u16 << w) - 1) as u16) == c) by (bit_vector)
        requires
            1 <= w <= 15,
            c < (1u16 << w),
    ;
}

/// Helper induction: the rebuilt prefix equals the masked low bits.
proof fn lemma_rebuild_matches_mask(c: u16, j: int)
    requires
        0 <= j <= 15,
    ensures
        rebuild(c, j) == (c & (((1u16 << (j as u16)) - 1) as u16)),
    decreases j,
{
    if j == 0 {
        assert(c & (((1u16 << 0u16) - 1) as u16) == 0) by (bit_vector);
    } else {
        lemma_rebuild_matches_mask(c, j - 1);
        let jj = j as u16;
        assert((c & (((1u16 << jj) - 1) as u16)) == (c & (((1u16 << ((jj - 1) as u16)) - 1) as u16))
            + ((c >> ((jj - 1) as u16)) & 1) * (1u16 << ((jj - 1) as u16))) by (bit_vector)
            requires
                1 <= jj <= 15,
        ;
        assert(((jj - 1) as u16) == ((j - 1) as u16));
    }
}

/// Set bit `pos` of the buffer to 1, leaving every other bit unchanged.
fn set_bit(v: &mut Vec<u8>, pos: usize)
    requires
        pos < old(v)@.len() * 8,
    ensures
        final(v)@.len() == old(v)@.len(),
        byte_bit(final(v)@, pos as int) == 1,
        forall|p: int|
            0 <= p < final(v)@.len() * 8 && p != pos ==> #[trigger] byte_bit(final(v)@, p)
                == byte_bit(old(v)@, p),
{
    let byte: usize = pos / 8;
    let bit: usize = pos % 8;
    let x = v[byte];
    let y: u8 = x | (1u8 << (bit as u8));
    v.set(byte, y);
    proof {
        let k = bit as u8;
        assert(((x | (1u8 << k)) >> k) & 1 == 1) by (bit_vector)
            requires
                k < 8,
        ;
        assert(forall|xx: u8, kk: u8, jj: u8|
            kk < 8 && jj < 8 && jj != kk ==> ((xx | (1u8 << kk)) >> jj) & 1 == (xx >> jj) & 1)
            by (bit_vector);
        assert forall|p: int| 0 <= p < v@.len() * 8 && p != pos implies byte_bit(v@, p) == byte_bit(
            old(v)@,
            p,
        ) by {
            lemma_fundamental_div_mod(p, 8);
            lemma_fundamental_div_mod(pos as int, 8);
        }
    }
}

/// Read bit `pos` of the buffer.
fn get_bit(v: &Vec<u8>, pos: usize) -> (r: u8)
    requires
        pos < v@.len() * 8,
    ensures
        r == byte_bit(v@, pos as int),
        r <= 1,
{
    let byte: usize = pos / 8;
    let bit: usize = pos % 8;
    proof {
        let x = v@[pos as int / 8];
        let k = (pos as int % 8) as u8;
        assert((x >> k) & 1 <= 1) by (bit_vector);
    }
    (v[byte] >> (bit as u8)) & 1
}

/// Pack `v` as fixed-width words, `w` bits each, little-endian across the
/// byte buffer.  Every bit beyond the packed words is zero.
pub fn pack_bits(v: &Vec<u16>, w: u16) -> (r: Vec<u8>)
    requires
        1 <= w <= 15,
        v@.len() <= 2048,
        forall|i: int| 0 <= i < v@.len() ==> v@[i] < (1u16 << w),
    ensures
        r@.len() == (v@.len() * w + 7) / 8,
        forall|pos: int|
            0 <= pos < v@.len() * w ==> #[trigger] byte_bit(r@, pos) == word_bit(v@, w, pos),
        forall|pos: int|
            v@.len() * w <= pos < r@.len() * 8 ==> #[trigger] byte_bit(r@, pos) == 0,
{
    let n = v.len();
    proof {
        assert(n * w <= 2048 * 15) by (nonlinear_arith)
            requires
                n <= 2048,
                w <= 15,
        ;
    }
    let total_bits: usize = n * (w as usize);
    let out_len: usize = (total_bits + 7) / 8;
    let mut out: Vec<u8> = vec![0u8; out_len];
    proof {
        lemma_fundamental_div_mod(total_bits as int + 7, 8);
        assert(forall|pos: int| 0 <= pos < out_len * 8 ==> #[trigger] byte_bit(out@, pos) == 0)
            by {
            assert(forall|xx: u8, jj: u8| xx == 0 && jj < 8 ==> (xx >> jj) & 1 == 0)
                by (bit_vector);
            assert forall|pos: int| 0 <= pos < out_len * 8 implies #[trigger] byte_bit(out@, pos)
                == 0 by {
                lemma_fundamental_div_mod(pos, 8);
            }
        }
    }
    for pos in 0..total_bits
        invariant
            1 <= w <= 15,
            n == v@.len(),
            n <= 2048,
            total_bits == n * w,
            out_len == (total_bits + 7) / 8,
            out@.len() == out_len,
            total_bits <= out_len * 8,
            forall|i2: int| 0 <= i2 < n ==> v@[i2] < (1u16 << w),
            forall|p: int| 0 <= p < pos ==> #[trigger] byte_bit(out@, p) == word_bit(v@, w, p),
            forall|p: int| pos <= p < out_len * 8 ==> #[trigger] byte_bit(out@, p) == 0,
    {
        let i: usize = pos / (w as usize);
        let j: usize = pos % (w as usize);
        proof {
            lemma_fundamental_div_mod(pos as int, w as int);
            assert((pos as int) / (w as int) < n) by (nonlinear_arith)
                requires
                    1 <= w,
                    0 <= pos < n * w,
                    ((pos as int) / (w as int)) * (w as int) + (pos as int) % (w as int) == pos,
                    0 <= (pos as int) % (w as int) < w,
            ;
        }
        let bit: u16 = (v[i] >> (j as u16)) & 1;
        proof {
            assert(word_bit(v@, w, pos as int) == bit);
            let vv = v@[i as int];
            let jj = j as u16;
            assert((vv >> jj) & 1 <= 1) by (bit_vector);
        }
        let ghost out0 = out@;
        if bit == 1 {
            set_bit(&mut out, pos);
        }
        proof {
            assert forall|p: int| 0 <= p < pos + 1 implies #[trigger] byte_bit(out@, p)
                == word_bit(v@, w, p) by {
                if p == pos {
                    assert(word_bit(v@, w, p) == bit);
                    if bit == 1 {
                        assert(byte_bit(out@, p) == 1);
                    } else {
                        assert(byte_bit(out@, p) == byte_bit(out0, p));
                        assert(byte_bit(out0, p) == 0);
                    }
                } else {
                    assert(byte_bit(out@, p) == byte_bit(out0, p));
                    assert(byte_bit(out0, p) == word_bit(v@, w, p));
                }
            }
            assert forall|p: int| pos + 1 <= p < out_len * 8 implies #[trigger] byte_bit(out@, p)
                == 0 by {
                assert(byte_bit(out@, p) == byte_bit(out0, p));
                assert(byte_bit(out0, p) == 0);
            }
        }
    }
    out
}

/// Read `count` fixed-width words back out of a packed byte buffer.
pub fn unpack_bits(b: &Vec<u8>, w: u16, count: usize) -> (r: Vec<u16>)
    requires
        1 <= w <= 15,
        count <= 2048,
        count * w <= b@.len() * 8,
    ensures
        r@.len() == count,
        forall|i: int| 0 <= i < count ==> r@[i] == word_val(b@, w, i),
        forall|i: int| 0 <= i < count ==> r@[i] < (1u16 << w),
{
    let mut r: Vec<u16> = Vec::new();
    for i in 0..count
        invariant
            1 <= w <= 15,
            count <= 2048,
            count * w <= b@.len() * 8,
            r@.len() == i,
            forall|i2: int| 0 <= i2 < i ==> r@[i2] == word_val(b@, w, i2),
            forall|i2: int| 0 <= i2 < i ==> r@[i2] < (1u16 << w),
    {
        let mut c: u16 = 0;
        proof {
            assert((i + 1) * w <= count * w) by (nonlinear_arith)
                requires
                    i < count,
                    0 <= w,
            ;
            assert((i + 1) * w == i * w + w) by (nonlinear_arith);
            assert(count * w <= 2048 * 15) by (nonlinear_arith)
                requires
                    count <= 2048,
                    w <= 15,
            ;
        }
        for j in 0..(w as usize)
            invariant
                1 <= w <= 15,
                0 <= i < count,
                i * w + w <= count * w <= b@.len() * 8,
                count * w <= 2048 * 15,
                c == word_val_prefix(b@, w, i as int, j as int),
                c < (1u16 << (j as u16)) || (j == 0 && c == 0),
        {
            let pos: usize = i * (w as usize) + j;
            let bit: u8 = get_bit(b, pos);
            let jj = j as u16;
            proof {
                assert(c + (bit as u16) * (1u16 << jj) < (1u16 << ((jj + 1) as u16)))
                    by (bit_vector)
                    requires
                        jj < 15,
                        bit <= 1,
                        c < (1u16 << jj) || (jj == 0 && c == 0),
                ;
                assert((1u16 << ((jj + 1) as u16)) <= 0x8000u16) by (bit_vector)
                    requires
                        jj < 15,
                ;
            }
            c = c + (bit as u16) * (1u16 << jj);
        }
        r.push(c);
        proof {
            assert(c < (1u16 << w) || (w == 0 && c == 0));
        }
    }
    r
}

/// Every bit from `from` (inclusive) to the end of the buffer is zero.
pub open spec fn bits_zero_from(b: Seq<u8>, from: int) -> bool {
    forall|pos: int| from <= pos < b.len() * 8 ==> #[trigger] byte_bit(b, pos) == 0
}

/// Check that every bit from `from` on is zero.
pub fn tail_bits_zero(b: &Vec<u8>, from: usize) -> (r: bool)
    requires
        b@.len() <= 8192,
        from <= b@.len() * 8,
    ensures
        r == bits_zero_from(b@, from as int),
{
    let total: usize = b.len() * 8;
    for pos in from..total
        invariant
            b@.len() <= 8192,
            total == b@.len() * 8,
            forall|p: int| from <= p < pos ==> #[trigger] byte_bit(b@, p) == 0,
    {
        if get_bit(b, pos) != 0 {
            return false;
        }
    }
    true
}

/// If the bits of `b` below `v.len() * w` agree with the packed bits of
/// the word sequence `v`, reading the words back yields `v` exactly.
pub proof fn lemma_unpack_inverts_pack(b: Seq<u8>, v: Seq<u16>, w: u16)
    requires
        1 <= w <= 15,
        forall|i: int| 0 <= i < v.len() ==> v[i] < (1u16 << w),
        forall|pos: int| 0 <= pos < v.len() * w ==> byte_bit(b, pos) == word_bit(v, w, pos),
    ensures
        forall|i: int| 0 <= i < v.len() ==> word_val(b, w, i) == v[i],
{
    assert forall|i: int| 0 <= i < v.len() implies word_val(b, w, i) == v[i] by {
        assert forall|j: int| 0 <= j < w implies #[trigger] byte_bit(b, i * (w as int) + j) == ((
        v[i] >> (j as u16)) & 1) by {
            assert((i + 1) * w <= v.len() * w) by (nonlinear_arith)
                requires
                    i < v.len() as int,
                    0 <= w,
            ;
            assert((i + 1) * w == i * w + w) by (nonlinear_arith);
            assert(i * w >= 0) by (nonlinear_arith)
                requires
                    i >= 0,
                    w >= 0,
            ;
            lemma_fundamental_div_mod_converse(i * (w as int) + j, w as int, i, j);
        }
        lemma_prefix_matches_rebuild(b, v[i], w, i, w as int);
        lemma_rebuild_id(v[i], w);
    }
}

/// Helper induction: a bit-for-bit match makes the read-back prefix equal
/// the rebuilt prefix of the word.
proof fn lemma_prefix_matches_rebuild(b: Seq<u8>, c: u16, w: u16, i: int, j: int)
    requires
        1 <= w <= 15,
        0 <= j <= w,
        forall|j2: int|
            0 <= j2 < w ==> #[trigger] byte_bit(b, i * (w as int) + j2) == ((c >> (j2 as u16))
                & 1),
    ensures
        word_val_prefix(b, w, i, j) == rebuild(c, j),
    decreases j,
{
    if j > 0 {
        lemma_prefix_matches_rebuild(b, c, w, i, j - 1);
    }
}

} // verus!
