//! The bytes-to-trits message codec: a plaintext is encoded into a
//! trinary message polynomial as an 8-bit length, the message bits, a
//! run of random padding bits and a fixed +1/-1 marker pattern.  The
//! decoder validates the structure (every recovered coefficient of the
//! bit regions must be a bit, the marker must match exactly, the length
//! must be plausible and the unused message bits must be zero) and
//! recovers the plaintext; a mismatch is an integrity failure.

use vstd::prelude::*;
use vstd::arithmetic::div_mod::lemma_fundamental_div_mod_converse;

use crate::errors::DecryptError;
use crate::params::{params_wf, ParameterSet};
use crate::poly::{poly_wf, Poly};

verus! {

/// First coefficient of the random padding region.
pub open spec fn pad_start(ps: ParameterSet) -> int {
    8 + 8 * ps.max_msg
}

/// First coefficient of the fixed marker region.
pub open spec fn marker_start(ps: ParameterSet) -> int {
    8 + 8 * ps.max_msg + ps.db
}

/// The byte value rebuilt from the first `j` bit-coefficients at `s`.
pub open spec fn trit_byte(m: Seq<u16>, s: int, j: int) -> int
    decreases j,
{
    if j <= 0 {
        0
    } else {
        trit_byte(m, s, j - 1) + m[s + (j - 1)] * (1u16 << ((j - 1) as u16))
    }
}

/// Every coefficient of the length, message and padding regions is a bit.
pub open spec fn bits_ok(m: Seq<u16>, ps: ParameterSet) -> bool {
    forall|k: int| 0 <= k < marker_start(ps) ==> m[k] <= 1
}

/// The marker region holds the fixed alternating +1/-1 pattern.
pub open spec fn marker_ok(m: Seq<u16>, ps: ParameterSet) -> bool {
    forall|k: int|
        marker_start(ps) <= k < ps.n ==> m[k] == (if (k - marker_start(ps)) % 2 == 0 {
            1u16
        } else {
            2u16
        })
}

/// The message bits beyond the encoded length are all zero.
pub open spec fn tail_zero(m: Seq<u16>, ps: ParameterSet, len: int) -> bool {
    forall|k: int| 8 + 8 * len <= k < pad_start(ps) ==> m[k] == 0
}

/// The message polynomial encoding `msg` with padding bits `pad`.
pub open spec fn encode_msg_spec(msg: Seq<u8>, pad: Seq<u16>, ps: ParameterSet) -> Seq<u16> {
    Seq::new(
        ps.n as nat,
        |k: int|
            if k < 8 {
                (((msg.len() as u8) >> (k as u8)) & 1) as u16
            } else if k < pad_start(ps) {
                if (k - 8) / 8 < msg.len() {
                    ((msg[(k - 8) / 8] >> (((k - 8) % 8) as u8)) & 1) as u16
                } else {
                    0u16
                }
            } else if k < marker_start(ps) {
                pad[k - pad_start(ps)]
            } else if (k - marker_start(ps)) % 2 == 0 {
                1u16
            } else {
                2u16
            },
    )
}

/// What decoding a message polynomial yields: the plaintext bytes, or
/// the exact failure the structure forces, checked in a fixed order.
pub open spec fn decode_msg_spec(m: Seq<u16>, ps: ParameterSet) -> Result<Seq<u8>, DecryptError> {
    if !bits_ok(m, ps) {
        Err(DecryptError::IntegrityCheckFailed)
    } else if !marker_ok(m, ps) {
        Err(DecryptError::IntegrityCheckFailed)
    } else if trit_byte(m, 0, 8) > ps.max_msg {
        Err(DecryptError::DecodingError)
    } else if !tail_zero(m, ps, trit_byte(m, 0, 8)) {
        Err(DecryptError::IntegrityCheckFailed)
    } else {
        Ok(Seq::new((trit_byte(m, 0, 8)) as nat, |b: int| trit_byte(m, 8 + 8 * b, 8) as u8))
    }
}

/// The bit-coefficients at `s` spell out the byte `c`: reading `j` of
/// them rebuilds the low bits of `c`.
proof fn lemma_trit_prefix(m: Seq<u16>, s: int, c: u8, j: int)
    requires
        0 <= j <= 8,
        forall|t: int| 0 <= t < 8 ==> #[trigger] m[s + t] == (((c >> (t as u8)) & 1) as u16),
    ensures
        trit_byte(m, s, j) == ((c as u16) & (((1u16 << (j as u16)) - 1) as u16)),
    decreases j,
{
    let cc = c as u16;
    if j == 0 {
        assert(cc & (((1u16 << 0u16) - 1) as u16) == 0) by (bit_vector);
    } else {
        lemma_trit_prefix(m, s, c, j - 1);
        let jj = j as u16;
        let t8 = (j - 1) as u8;
        assert((cc & (((1u16 << jj) - 1) as u16)) == (cc & (((1u16 << ((jj - 1) as u16)) - 1)
            as u16)) + ((cc >> ((jj - 1) as u16)) & 1) * (1u16 << ((jj - 1) as u16)))
            by (bit_vector)
            requires
                1 <= jj <= 8,
        ;
        assert((((c >> t8) & 1) as u16) == ((c as u16) >> ((t8 as u16))) & 1) by (bit_vector)
            requires
                t8 < 8,
        ;
        assert(((jj - 1) as u16) == (t8 as u16));
        assert(m[s + (j - 1)] == (((c >> t8) & 1) as u16));
    }
}

/// Reading all 8 bit-coefficients of a spelled-out byte gives the byte.
proof fn lemma_trit_byte_is(m: Seq<u16>, s: int, c: u8)
    requires
        forall|t: int| 0 <= t < 8 ==> #[trigger] m[s + t] == (((c >> (t as u8)) & 1) as u16),
    ensures
        trit_byte(m, s, 8) == c,
{
    lemma_trit_prefix(m, s, c, 8);
    let cc = c as u16;
    assert((cc & (((1u16 << 8u16) - 1) as u16)) == cc) by (bit_vector)
        requires
            cc < 256,
    ;
}

/// A byte rebuilt from bit-coefficients stays below 2^j.
proof fn lemma_trit_byte_bound(m: Seq<u16>, s: int, j: int)
    requires
        0 <= j <= 8,
        forall|t: int| 0 <= t < j ==> #[trigger] m[s + t] <= 1,
    ensures
        0 <= trit_byte(m, s, j) <= (1u16 << (j as u16)) - 1,
    decreases j,
{
    if j == 0 {
        assert((1u16 << 0u16) == 1) by (bit_vector);
    } else {
        lemma_trit_byte_bound(m, s, j - 1);
        let jj = j as u16;
        assert((1u16 << jj) == 2 * (1u16 << ((jj - 1) as u16))) by (bit_vector)
            requires
                1 <= jj <= 8,
        ;
        assert(m[s + (j - 1)] <= 1);
    }
}

/// Encode a plaintext and its padding bits into a message polynomial.
pub fn encode_message(msg: &Vec<u8>, pad: &Vec<u16>, ps: &ParameterSet) -> (r: Poly)
    requires
        params_wf(*ps),
        msg@.len() <= ps.max_msg,
        pad@.len() == ps.db,
        forall|i: int| 0 <= i < pad@.len() ==> pad@[i] <= 1,
    ensures
        r@ == encode_msg_spec(msg@, pad@, *ps),
        poly_wf(r@, 3, ps.n as int),
{
    let ghost enc = encode_msg_spec(msg@, pad@, *ps);
    let mlen = msg.len();
    let len_u8: u8 = mlen as u8;
    let mut v: Vec<u16> = Vec::new();
    for j in 0..8usize
        invariant
            params_wf(*ps),
            mlen == msg@.len() <= ps.max_msg,
            len_u8 == mlen as u8,
            enc == encode_msg_spec(msg@, pad@, *ps),
            v@.len() == j,
            forall|k: int| 0 <= k < j ==> v@[k] == enc[k],
    {
        v.push((((len_u8 >> (j as u8)) & 1)) as u16);
    }
    let bit_count: usize = 8 * ps.max_msg;
    for t in 0..bit_count
        invariant
            params_wf(*ps),
            mlen == msg@.len() <= ps.max_msg,
            bit_count == 8 * ps.max_msg,
            enc == encode_msg_spec(msg@, pad@, *ps),
            v@.len() == 8 + t,
            forall|k: int| 0 <= k < 8 + t ==> v@[k] == enc[k],
    {
        let b: usize = t / 8;
        let j: usize = t % 8;
        let bit: u16 = if b < mlen {
            ((msg[b] >> (j as u8)) & 1) as u16
        } else {
            0u16
        };
        v.push(bit);
    }
    let db = ps.db;
    for t in 0..db
        invariant
            params_wf(*ps),
            db == ps.db,
            pad@.len() == db,
            enc == encode_msg_spec(msg@, pad@, *ps),
            v@.len() == pad_start(*ps) + t,
            forall|k: int| 0 <= k < pad_start(*ps) + t ==> v@[k] == enc[k],
    {
        v.push(pad[t]);
    }
    let marker_len: usize = ps.n - (8 + 8 * ps.max_msg + ps.db);
    for t in 0..marker_len
        invariant
            params_wf(*ps),
            marker_len == ps.n - marker_start(*ps),
            enc == encode_msg_spec(msg@, pad@, *ps),
            v@.len() == marker_start(*ps) + t,
            forall|k: int| 0 <= k < marker_start(*ps) + t ==> v@[k] == enc[k],
    {
        let bit: u16 = if t % 2 == 0 {
            1u16
        } else {
            2u16
        };
        v.push(bit);
    }
    proof {
        assert(v@ =~= enc);
        assert forall|k: int| 0 <= k < ps.n implies v@[k] < 3 by {
            assert(forall|x: u8, t: u8| ((x >> t) & 1) <= 1) by (bit_vector);
            assert(v@[k] == enc[k]);
        }
    }
    Poly { coeffs: v }
}

/// Decode a candidate message polynomial back into plaintext bytes,
/// validating the bit regions, the marker pattern, the length byte and
/// the unused message bits, in that order.
pub fn decode_message(m: &Poly, ps: &ParameterSet) -> (r: Result<Vec<u8>, DecryptError>)
    requires
        params_wf(*ps),
        poly_wf(m@, 3, ps.n as int),
    ensures
        decode_msg_spec(m@, *ps) matches Ok(s) ==> (r matches Ok(v) && v@ == s),
        decode_msg_spec(m@, *ps) matches Err(e) ==> r == Err::<Vec<u8>, DecryptError>(e),
{
    let ms: usize = 8 + 8 * ps.max_msg + ps.db;
    let n = ps.n;
    // 1. every coefficient before the marker must be a bit
    for k in 0..ms
        invariant
            params_wf(*ps),
            ms == marker_start(*ps),
            n == ps.n,
            poly_wf(m@, 3, n as int),
            forall|k2: int| 0 <= k2 < k ==> m@[k2] <= 1,
    {
        if m.coeffs[k] > 1 {
            return Err(DecryptError::IntegrityCheckFailed);
        }
    }
    // 2. the marker must match the fixed pattern exactly
    for k in ms..n
        invariant
            params_wf(*ps),
            ms == marker_start(*ps),
            n == ps.n,
            poly_wf(m@, 3, n as int),
            forall|k2: int|
                ms <= k2 < k ==> m@[k2] == (if (k2 - marker_start(*ps)) % 2 == 0 {
                    1u16
                } else {
                    2u16
                }),
    {
        let expect: u16 = if (k - ms) % 2 == 0 {
            1u16
        } else {
            2u16
        };
        if m.coeffs[k] != expect {
            return Err(DecryptError::IntegrityCheckFailed);
        }
    }
    proof {
        assert(bits_ok(m@, *ps));
        assert(marker_ok(m@, *ps));
    }
    // 3. recover the length byte and bound it
    let mut len: u16 = 0;
    proof {
        assert((1u16 << 0u16) == 1) by (bit_vector);
    }
    for j in 0..8usize
        invariant
            params_wf(*ps),
            poly_wf(m@, 3, ps.n as int),
            bits_ok(m@, *ps),
            len == trit_byte(m@, 0, j as int),
            len <= (1u16 << (j as u16)) - 1,
    {
        let jj = j as u16;
        proof {
            lemma_trit_byte_bound(m@, 0, j as int + 1);
            assert((1u16 << jj) <= 256 && (2 * (1u16 << jj)) == (1u16 << ((jj + 1) as u16)))
                by (bit_vector)
                requires
                    jj < 8,
            ;
        }
        len = len + m.coeffs[j] * (1u16 << jj);
    }
    if len as usize > ps.max_msg {
        return Err(DecryptError::DecodingError);
    }
    // 4. the message bits beyond the length must be zero
    let tail_from: usize = 8 + 8 * (len as usize);
    let tail_to: usize = 8 + 8 * ps.max_msg;
    for k in tail_from..tail_to
        invariant
            params_wf(*ps),
            poly_wf(m@, 3, ps.n as int),
            bits_ok(m@, *ps),
            marker_ok(m@, *ps),
            len == trit_byte(m@, 0, 8),
            len <= ps.max_msg,
            tail_from == 8 + 8 * (len as int),
            tail_to == pad_start(*ps),
            forall|k2: int| tail_from <= k2 < k ==> m@[k2] == 0,
    {
        if m.coeffs[k] != 0 {
            return Err(DecryptError::IntegrityCheckFailed);
        }
    }
    proof {
        assert(tail_zero(m@, *ps, len as int));
    }
    // 5. rebuild the plaintext bytes
    let mut out: Vec<u8> = Vec::new();
    let count = len as usize;
    for b in 0..count
        invariant
            params_wf(*ps),
            poly_wf(m@, 3, ps.n as int),
            bits_ok(m@, *ps),
            count == len as int,
            count <= ps.max_msg,
            out@.len() == b,
            forall|b2: int| 0 <= b2 < b ==> out@[b2] == trit_byte(m@, 8 + 8 * b2, 8) as u8,
    {
        let base: usize = 8 + 8 * b;
        let mut c: u16 = 0;
        proof {
            assert((1u16 << 0u16) == 1) by (bit_vector);
            assert forall|t: int| 0 <= t < 8 implies #[trigger] m@[base + t] <= 1 by {
                assert(base + t < marker_start(*ps));
            }
        }
        for j in 0..8usize
            invariant
                params_wf(*ps),
                poly_wf(m@, 3, ps.n as int),
                base == 8 + 8 * (b as int),
                base + 8 <= pad_start(*ps),
                forall|t: int| 0 <= t < 8 ==> #[trigger] m@[base + t] <= 1,
                c == trit_byte(m@, base as int, j as int),
                c <= (1u16 << (j as u16)) - 1,
        {
            let jj = j as u16;
            proof {
                lemma_trit_byte_bound(m@, base as int, j as int + 1);
                assert((1u16 << jj) <= 256 && (2 * (1u16 << jj)) == (1u16 << ((jj + 1) as u16)))
                    by (bit_vector)
                    requires
                        jj < 8,
                ;
            }
            c = c + m.coeffs[base + j] * (1u16 << jj);
        }
        proof {
            lemma_trit_byte_bound(m@, base as int, 8);
            assert((1u16 << 8u16) == 256) by (bit_vector);
        }
        out.push(c as u8);
    }
    proof {
        let spec_out = Seq::new((trit_byte(m@, 0, 8)) as nat, |b: int| trit_byte(m@, 8 + 8 * b, 8) as u8);
        assert(out@ =~= spec_out);
    }
    Ok(out)
}

/// Decoding inverts encoding: for any plaintext within the maximum
/// length and any padding bit string of the configured width, the encoded
/// message polynomial decodes back to exactly that plaintext.
pub proof fn lemma_message_roundtrip(msg: Seq<u8>, pad: Seq<u16>, ps: ParameterSet)
    requires
        params_wf(ps),
        msg.len() <= ps.max_msg,
        pad.len() == ps.db,
        forall|i: int| 0 <= i < pad.len() ==> pad[i] <= 1,
    ensures
        decode_msg_spec(encode_msg_spec(msg, pad, ps), ps) == Ok::<Seq<u8>, DecryptError>(msg),
{
    let enc = encode_msg_spec(msg, pad, ps);
    assert(forall|x: u8, t: u8| ((x >> t) & 1) <= 1) by (bit_vector);
    assert forall|k: int| 0 <= k < marker_start(ps) implies enc[k] <= 1 by {}
    assert(bits_ok(enc, ps));
    assert(marker_ok(enc, ps));
    let c = msg.len() as u8;
    assert forall|t: int| 0 <= t < 8 implies #[trigger] enc[0 + t] == (((c >> (t as u8)) & 1)
        as u16) by {}
    lemma_trit_byte_is(enc, 0, c);
    assert(trit_byte(enc, 0, 8) == msg.len());
    assert forall|k: int| 8 + 8 * msg.len() <= k < pad_start(ps) implies enc[k] == 0 by {
        assert(8 * msg.len() <= k - 8 < 8 * ps.max_msg);
        assert((k - 8) / 8 >= msg.len()) by (nonlinear_arith)
            requires
                8 * msg.len() <= k - 8,
        ;
    }
    assert(tail_zero(enc, ps, msg.len() as int));
    assert forall|b: int| 0 <= b < msg.len() implies trit_byte(enc, 8 + 8 * b, 8) == msg[b] by {
        assert forall|t: int| 0 <= t < 8 implies #[trigger] enc[(8 + 8 * b) + t] == (((msg[b] >> (
        t as u8)) & 1) as u16) by {
            let k = (8 + 8 * b) + t;
            lemma_fundamental_div_mod_converse(k - 8, 8, b, t);
            assert(k < pad_start(ps)) by (nonlinear_arith)
                requires
                    0 <= b < msg.len(),
                    msg.len() <= ps.max_msg,
                    0 <= t < 8,
                    k == 8 + 8 * b + t,
            ;
        }
        lemma_trit_byte_is(enc, 8 + 8 * b, msg[b]);
    }
    let dec = Seq::new((trit_byte(enc, 0, 8)) as nat, |b: int| trit_byte(enc, 8 + 8 * b, 8) as u8);
    assert(dec =~= msg);
}

} // verus!
