//! The encryption engine: key generation with invertibility constraints,
//! the encrypt transform e = r*h + m (mod q) and the decrypt transform
//! (center(f*e mod q) mod 3, then multiplication by the inverse of f mod
//! 3, then message decoding).

use vstd::prelude::*;

use crate::errors::{DecryptError, EncryptError, KeyGenError, SamplingError};
use crate::inverse::{invert_pow2, invert_prime};
use crate::keys::{
    ciphertext_wf, private_key_wf, public_key_wf, Ciphertext, KeyPair, PrivateKey, PublicKey,
};
use crate::msg::{decode_msg_spec, decode_message, encode_msg_spec, encode_message};
use crate::params::{lemma_q_bounds, params_wf, ParameterSet};
use crate::poly::{
    centered, conv_at, lift_trit, lift_trits_spec, poly_add, poly_center_mod3, poly_is_inverse,
    poly_lift_trits, poly_mult, poly_scalar_mult, poly_wf, Poly,
};
use crate::rng::RandContext;
use crate::sample::{count_val, sample_trinary};

verus! {

/// How many private-key candidates key generation will try before it
/// reports `NoInvertibleCandidate`.
pub const KEYGEN_RETRIES: usize = 100;

/// The public polynomial derived from the inverse of f mod q and the
/// trinary polynomial g: h = p * (f_q^-1 * g) (mod q), with p = 3.
pub open spec fn public_poly_spec(fq_inv: Seq<u16>, gt: Seq<u16>, ps: ParameterSet) -> Seq<u16> {
    Seq::new(
        ps.n as nat,
        |k: int|
            ((conv_at(fq_inv, lift_trits_spec(gt, ps.q as int), ps.q as int, k) * 3) % (
            ps.q as int)) as u16,
    )
}

/// The ciphertext polynomial: e = r*h + m (mod q), with the trinary
/// message and blinding polynomials lifted into the mod-q ring.
pub open spec fn encrypt_poly_spec(mt: Seq<u16>, rt: Seq<u16>, h: Seq<u16>, ps: ParameterSet) -> Seq<
    u16,
> {
    Seq::new(
        ps.n as nat,
        |k: int|
            ((conv_at(lift_trits_spec(rt, ps.q as int), h, ps.q as int, k) + lift_trit(
                mt[k],
                ps.q as int,
            )) % (ps.q as int)) as u16,
    )
}

/// The candidate message polynomial the decryptor recovers: multiply the
/// ciphertext by f mod q, center every coefficient into (-q/2, q/2],
/// reduce mod 3, and multiply by the inverse of f mod 3.
pub open spec fn decrypt_poly_spec(f3: Seq<u16>, fi: Seq<u16>, e: Seq<u16>, ps: ParameterSet) -> Seq<
    u16,
> {
    let fq = lift_trits_spec(f3, ps.q as int);
    let a = Seq::new(ps.n as nat, |k: int| conv_at(fq, e, ps.q as int, k) as u16);
    let t = Seq::new(ps.n as nat, |k: int| (centered(a[k] as int, ps.q as int) % 3) as u16);
    Seq::new(ps.n as nat, |k: int| conv_at(fi, t, 3, k) as u16)
}

/// Generate a key pair: sample trinary candidates for f until one is
/// invertible both mod 3 and mod q, then sample g and derive
/// h = 3 * f_q^-1 * g (mod q).  Every returned private key carries its
/// two verified inverses (the key invariant's witnesses); the retry
/// budget is fixed.
pub fn generate_key_pair(ps: &ParameterSet, rand: &RandContext) -> (r: Result<
    KeyPair,
    KeyGenError,
>)
    requires
        params_wf(*ps),
    ensures
        r matches Ok(kp) ==> {
            &&& private_key_wf(kp.private, *ps)
            &&& public_key_wf(kp.public, *ps)
            &&& count_val(kp.private.f@, 1) == ps.df_ones
            &&& count_val(kp.private.f@, 2) == ps.df_neg_ones
            &&& exists|gt: Seq<u16>|
                {
                    &&& poly_wf(gt, 3, ps.n as int)
                    &&& count_val(gt, 1) == ps.dg
                    &&& count_val(gt, 2) == ps.dg
                    &&& kp.public.h@ == public_poly_spec(kp.private.f_inv_q@, gt, *ps)
                }
        },
        r matches Err(e) ==> (e == KeyGenError::NoInvertibleCandidate || e matches
            KeyGenError::Sampling(_)),
{
    let n = ps.n;
    let q = ps.q;
    proof {
        lemma_q_bounds(*ps);
    }
    for _attempt in 0..KEYGEN_RETRIES
        invariant
            params_wf(*ps),
            n == ps.n,
            q == ps.q,
            256 <= q <= 2048,
    {
        let ft = match sample_trinary(rand, ps.df_ones, ps.df_neg_ones, n) {
            Ok(p) => p,
            Err(e) => {
                return Err(KeyGenError::Sampling(e));
            },
        };
        if let Some(fi3) = invert_prime(&ft, 3, n) {
            let fq_poly = poly_lift_trits(&ft, q, n);
            proof {
                assert(fq_poly@ =~= lift_trits_spec(ft@, q as int));
            }
            if let Some(fq_inv) = invert_pow2(&fq_poly, q, ps.q_bits, n) {
                let gt = match sample_trinary(rand, ps.dg, ps.dg, n) {
                    Ok(p) => p,
                    Err(e) => {
                        return Err(KeyGenError::Sampling(e));
                    },
                };
                let gq = poly_lift_trits(&gt, q, n);
                let hp = poly_mult(&fq_inv, &gq, q, n);
                let h = poly_scalar_mult(&hp, 3, q, n);
                proof {
                    assert(gq@ =~= lift_trits_spec(gt@, q as int));
                    assert(h@ =~= public_poly_spec(fq_inv@, gt@, *ps));
                }
                return Ok(
                    KeyPair {
                        private: PrivateKey { f: ft, f_inv_p: fi3, f_inv_q: fq_inv },
                        public: PublicKey { h },
                    },
                );
            }
        }
    }
    Err(KeyGenError::NoInvertibleCandidate)
}

/// Derive a public key from an existing private key and a freshly
/// sampled g, using the mod-q inverse the key carries.  A fresh g is
/// drawn on every call, so deriving twice from the same private key
/// yields different, equally valid, public keys.  Only an entropy
/// failure can prevent success.
pub fn generate_public(ps: &ParameterSet, private: &PrivateKey, rand: &RandContext) -> (r: Result<
    PublicKey,
    KeyGenError,
>)
    requires
        params_wf(*ps),
        private_key_wf(*private, *ps),
    ensures
        r matches Ok(pk) ==> {
            &&& public_key_wf(pk, *ps)
            &&& exists|gt: Seq<u16>|
                {
                    &&& poly_wf(gt, 3, ps.n as int)
                    &&& count_val(gt, 1) == ps.dg
                    &&& count_val(gt, 2) == ps.dg
                    &&& pk.h@ == public_poly_spec(private.f_inv_q@, gt, *ps)
                }
        },
        r matches Err(e) ==> (e matches KeyGenError::Sampling(_)),
{
    let n = ps.n;
    let q = ps.q;
    proof {
        lemma_q_bounds(*ps);
    }
    let gt = match sample_trinary(rand, ps.dg, ps.dg, n) {
        Ok(p) => p,
        Err(e) => {
            return Err(KeyGenError::Sampling(e));
        },
    };
    let gq = poly_lift_trits(&gt, q, n);
    let hp = poly_mult(&private.f_inv_q, &gq, q, n);
    let h = poly_scalar_mult(&hp, 3, q, n);
    proof {
        assert(gq@ =~= lift_trits_spec(gt@, q as int));
        assert(h@ =~= public_poly_spec(private.f_inv_q@, gt@, *ps));
    }
    Ok(PublicKey { h })
}

/// Encrypt a plaintext: encode it with fresh random padding into a
/// trinary message polynomial m, sample the trinary blinding polynomial
/// r, and return e = r*h + m (mod q).  A plaintext longer than
/// `max_msg_len` is rejected with `MessageTooLong`, and with nothing
/// else; entropy failures surface as `Sampling` errors.
pub fn encrypt(plaintext: &Vec<u8>, public: &PublicKey, ps: &ParameterSet, rand: &RandContext) -> (r:
    Result<Ciphertext, EncryptError>)
    requires
        params_wf(*ps),
        public_key_wf(*public, *ps),
    ensures
        plaintext@.len() > ps.max_msg <==> r == Err::<Ciphertext, EncryptError>(
            EncryptError::MessageTooLong,
        ),
        r matches Ok(ct) ==> {
            &&& ciphertext_wf(ct, *ps)
            &&& exists|rt: Seq<u16>, pad: Seq<u16>|
                {
                    &&& poly_wf(rt, 3, ps.n as int)
                    &&& count_val(rt, 1) == ps.dr
                    &&& count_val(rt, 2) == ps.dr
                    &&& pad.len() == ps.db
                    &&& (forall|i: int| 0 <= i < pad.len() ==> pad[i] <= 1)
                    &&& ct.e@ == encrypt_poly_spec(
                        encode_msg_spec(plaintext@, pad, *ps),
                        rt,
                        public.h@,
                        *ps,
                    )
                }
        },
        r matches Err(e) ==> (e == EncryptError::MessageTooLong || e matches
            EncryptError::Sampling(_)),
{
    let n = ps.n;
    let q = ps.q;
    proof {
        lemma_q_bounds(*ps);
    }
    if plaintext.len() > ps.max_msg_len() {
        return Err(EncryptError::MessageTooLong);
    }
    // fresh random padding bits
    let pad_bytes = match rand.random_bytes(ps.db) {
        Ok(b) => b,
        Err(e) => {
            return Err(EncryptError::Sampling(e));
        },
    };
    let mut pad: Vec<u16> = Vec::new();
    for i in 0..ps.db
        invariant
            pad_bytes@.len() == ps.db,
            pad@.len() == i,
            forall|j: int| 0 <= j < i ==> pad@[j] <= 1,
    {
        proof {
            let x = pad_bytes@[i as int];
            assert((x & 1) <= 1) by (bit_vector);
        }
        pad.push((pad_bytes[i] & 1) as u16);
    }
    let mt = encode_message(plaintext, &pad, ps);
    let rt = match sample_trinary(rand, ps.dr, ps.dr, n) {
        Ok(p) => p,
        Err(e) => {
            return Err(EncryptError::Sampling(e));
        },
    };
    let rq = poly_lift_trits(&rt, q, n);
    let mq = poly_lift_trits(&mt, q, n);
    let rh = poly_mult(&rq, &public.h, q, n);
    let e = poly_add(&rh, &mq, q, n);
    proof {
        assert(rq@ =~= lift_trits_spec(rt@, q as int));
        assert(e@ =~= encrypt_poly_spec(mt@, rt@, public.h@, *ps));
    }
    Ok(Ciphertext { e })
}

/// Decrypt a ciphertext with the private half of the key pair: compute
/// f*e (mod q), center every coefficient, reduce mod 3, multiply by the
/// key's stored inverse of f mod 3 and decode the message structure.
/// The result is a pure function of the ciphertext and the key, pinned
/// in both directions: decryption succeeds with the decoded bytes
/// exactly when the recovered structure is valid, and returns exactly
/// the error the structure forces otherwise.
pub fn decrypt(ciphertext: &Ciphertext, kp: &KeyPair, ps: &ParameterSet) -> (r: Result<
    Vec<u8>,
    DecryptError,
>)
    requires
        params_wf(*ps),
        private_key_wf(kp.private, *ps),
        ciphertext_wf(*ciphertext, *ps),
    ensures
        decode_msg_spec(
            decrypt_poly_spec(kp.private.f@, kp.private.f_inv_p@, ciphertext.e@, *ps),
            *ps,
        ) matches Ok(s) ==> (r matches Ok(v) && v@ == s),
        decode_msg_spec(
            decrypt_poly_spec(kp.private.f@, kp.private.f_inv_p@, ciphertext.e@, *ps),
            *ps,
        ) matches Err(e) ==> r == Err::<Vec<u8>, DecryptError>(e),
{
    let n = ps.n;
    let q = ps.q;
    proof {
        lemma_q_bounds(*ps);
    }
    let fq = poly_lift_trits(&kp.private.f, q, n);
    let a = poly_mult(&fq, &ciphertext.e, q, n);
    let t = poly_center_mod3(&a, q, n);
    let m3 = poly_mult(&kp.private.f_inv_p, &t, 3, n);
    proof {
        let fqs = lift_trits_spec(kp.private.f@, q as int);
        assert(fq@ =~= fqs);
        let a_spec = Seq::new(ps.n as nat, |k: int| conv_at(fqs, ciphertext.e@, q as int, k) as u16);
        assert(a@ =~= a_spec);
        let t_spec = Seq::new(
            ps.n as nat,
            |k: int| (centered(a_spec[k] as int, q as int) % 3) as u16,
        );
        assert(t@ =~= t_spec);
        assert(m3@ =~= decrypt_poly_spec(kp.private.f@, kp.private.f_inv_p@, ciphertext.e@, *ps));
    }
    match decode_message(&m3, ps) {
        Ok(v) => Ok(v),
        Err(e) => Err(e),
    }
}

} // verus!
