//! Key and ciphertext types, with their fixed-length binary codecs:
//! public keys and ciphertexts pack each mod-q coefficient into `q_bits`
//! bits; private keys pack each trinary coefficient into 2 bits.  Import
//! always rejects a buffer of the wrong length outright, and rejects
//! nonzero trailing bits and out-of-range codes, so that the encoding of
//! every key is unique and import inverts export bit for bit.

use vstd::prelude::*;

use crate::bits::{
    bits_zero_from, lemma_unpack_inverts_pack, pack_bits, tail_bits_zero, unpack_bits, word_val,
};
use crate::errors::CodecError;
use crate::inverse::{invert_pow2, invert_prime};
use crate::params::{lemma_q_bounds, params_wf, spec_private_len, spec_public_len, ParameterSet};
use crate::poly::{lift_trits_spec, poly_is_inverse, poly_lift_trits, poly_wf, Poly};

verus! {

/// The public polynomial h, derived from a private key during key
/// generation.
pub struct PublicKey {
    pub h: Poly,
}

/// The private ring element f, stored in trinary form (0, 1, or 2 with 2
/// read as -1), together with its multiplicative inverses mod 3 and mod
/// q.  The inverses are the enforcement witnesses of the key invariant
/// (f must be invertible under both moduli at creation time): key
/// generation computes them and import recomputes and re-checks them, so
/// no `PrivateKey` without them ever exists.  Only f is serialized.
pub struct PrivateKey {
    pub f: Poly,
    pub f_inv_p: Poly,
    pub f_inv_q: Poly,
}

/// One private key paired with the public key derived from it.  The
/// pairing is an application-level assertion: decryption trusts it.
pub struct KeyPair {
    pub private: PrivateKey,
    pub public: PublicKey,
}

/// A ciphertext: a polynomial modulo q, opaque beyond its encoding.
pub struct Ciphertext {
    pub e: Poly,
}

pub open spec fn public_key_wf(k: PublicKey, ps: ParameterSet) -> bool {
    poly_wf(k.h@, ps.q as int, ps.n as int)
}

pub open spec fn private_key_wf(k: PrivateKey, ps: ParameterSet) -> bool {
    &&& poly_wf(k.f@, 3, ps.n as int)
    &&& poly_is_inverse(k.f@, k.f_inv_p@, 3, ps.n as int)
    &&& poly_is_inverse(
        lift_trits_spec(k.f@, ps.q as int),
        k.f_inv_q@,
        ps.q as int,
        ps.n as int,
    )
}

pub open spec fn ciphertext_wf(c: Ciphertext, ps: ParameterSet) -> bool {
    poly_wf(c.e@, ps.q as int, ps.n as int)
}

/// What importing a packed mod-q polynomial yields: the coefficients, or
/// nothing when the length is wrong or a trailing bit is set.
pub open spec fn import_q_spec(bytes: Seq<u8>, ps: ParameterSet) -> Option<Seq<u16>> {
    if bytes.len() != spec_public_len(ps) {
        None
    } else if !bits_zero_from(bytes, ps.n * ps.q_bits) {
        None
    } else {
        Some(Seq::new(ps.n as nat, |i: int| word_val(bytes, ps.q_bits, i) as u16))
    }
}

/// What importing a packed trinary polynomial yields: the coefficients,
/// or nothing when the length is wrong, a trailing bit is set, or a
/// 2-bit code is not a trit.
pub open spec fn import_trits_spec(bytes: Seq<u8>, ps: ParameterSet) -> Option<Seq<u16>> {
    if bytes.len() != spec_private_len(ps) {
        None
    } else if !bits_zero_from(bytes, ps.n * 2) {
        None
    } else if !(forall|i: int| 0 <= i < ps.n ==> word_val(bytes, 2, i) < 3) {
        None
    } else {
        Some(Seq::new(ps.n as nat, |i: int| word_val(bytes, 2, i) as u16))
    }
}

/// Pack a mod-q polynomial; the encoding imports back to exactly the
/// same coefficients.
fn export_q_poly(p: &Poly, ps: &ParameterSet) -> (r: Vec<u8>)
    requires
        params_wf(*ps),
        poly_wf(p@, ps.q as int, ps.n as int),
    ensures
        r@.len() == spec_public_len(*ps),
        import_q_spec(r@, *ps) == Some(p@),
{
    proof {
        assert forall|i: int| 0 <= i < p@.len() implies p@[i] < (1u16 << ps.q_bits) by {}
    }
    let out = pack_bits(&p.coeffs, ps.q_bits);
    proof {
        lemma_unpack_inverts_pack(out@, p@, ps.q_bits);
        let got = Seq::new(ps.n as nat, |i: int| word_val(out@, ps.q_bits, i) as u16);
        assert(got =~= p@);
        assert(bits_zero_from(out@, ps.n * ps.q_bits));
    }
    out
}

/// Unpack a mod-q polynomial, rejecting a wrong length with
/// `LengthMismatch` and nonzero trailing bits with `InvalidEncoding`.
fn import_q_poly(bytes: &Vec<u8>, ps: &ParameterSet) -> (r: Result<Poly, CodecError>)
    requires
        params_wf(*ps),
    ensures
        r matches Ok(p) ==> (import_q_spec(bytes@, *ps) == Some(p@) && poly_wf(
            p@,
            ps.q as int,
            ps.n as int,
        )),
        bytes@.len() != spec_public_len(*ps) <==> r == Err::<Poly, CodecError>(
            CodecError::LengthMismatch,
        ),
        (import_q_spec(bytes@, *ps) is None && bytes@.len() == spec_public_len(*ps)) <==> r
            == Err::<Poly, CodecError>(CodecError::InvalidEncoding),
{
    proof {
        assert(ps.n * ps.q_bits <= 2048 * 11) by (nonlinear_arith)
            requires
                ps.n <= 2048,
                ps.q_bits <= 11,
        ;
    }
    let expected = ps.public_len();
    if bytes.len() != expected {
        return Err(CodecError::LengthMismatch);
    }
    let used_bits: usize = ps.n * (ps.q_bits as usize);
    proof {
        vstd::arithmetic::div_mod::lemma_fundamental_div_mod(used_bits as int + 7, 8);
    }
    if !tail_bits_zero(bytes, used_bits) {
        return Err(CodecError::InvalidEncoding);
    }
    let coeffs = unpack_bits(bytes, ps.q_bits, ps.n);
    proof {
        assert forall|i: int| 0 <= i < ps.n implies coeffs@[i] < ps.q by {
            assert(coeffs@[i] < (1u16 << ps.q_bits));
        }
        let got = Seq::new(ps.n as nat, |i: int| word_val(bytes@, ps.q_bits, i) as u16);
        assert(coeffs@ =~= got);
    }
    Ok(Poly { coeffs })
}

/// Pack a trinary polynomial two bits per coefficient; the encoding
/// imports back to exactly the same coefficients.
fn export_trit_poly(p: &Poly, ps: &ParameterSet) -> (r: Vec<u8>)
    requires
        params_wf(*ps),
        poly_wf(p@, 3, ps.n as int),
    ensures
        r@.len() == spec_private_len(*ps),
        import_trits_spec(r@, *ps) == Some(p@),
{
    proof {
        assert((1u16 << 2u16) == 4) by (bit_vector);
        assert forall|i: int| 0 <= i < p@.len() implies p@[i] < (1u16 << 2u16) by {}
    }
    let out = pack_bits(&p.coeffs, 2);
    proof {
        lemma_unpack_inverts_pack(out@, p@, 2);
        let got = Seq::new(ps.n as nat, |i: int| word_val(out@, 2, i) as u16);
        assert(got =~= p@);
        assert(bits_zero_from(out@, ps.n * 2));
        assert forall|i: int| 0 <= i < ps.n implies word_val(out@, 2, i) < 3 by {
            assert(word_val(out@, 2, i) == p@[i]);
        }
    }
    out
}

/// Unpack a trinary polynomial, rejecting a wrong length with
/// `LengthMismatch`, and nonzero trailing bits or a non-trit 2-bit code
/// with `InvalidEncoding`.
fn import_trit_poly(bytes: &Vec<u8>, ps: &ParameterSet) -> (r: Result<Poly, CodecError>)
    requires
        params_wf(*ps),
    ensures
        r matches Ok(p) ==> (import_trits_spec(bytes@, *ps) == Some(p@) && poly_wf(
            p@,
            3,
            ps.n as int,
        )),
        bytes@.len() != spec_private_len(*ps) <==> r == Err::<Poly, CodecError>(
            CodecError::LengthMismatch,
        ),
        (import_trits_spec(bytes@, *ps) is None && bytes@.len() == spec_private_len(*ps)) <==> r
            == Err::<Poly, CodecError>(CodecError::InvalidEncoding),
{
    let expected = ps.private_len();
    if bytes.len() != expected {
        return Err(CodecError::LengthMismatch);
    }
    let used_bits: usize = ps.n * 2;
    proof {
        vstd::arithmetic::div_mod::lemma_fundamental_div_mod(used_bits as int + 7, 8);
    }
    if !tail_bits_zero(bytes, used_bits) {
        return Err(CodecError::InvalidEncoding);
    }
    let coeffs = unpack_bits(bytes, 2, ps.n);
    let mut ok = true;
    for i in 0..ps.n
        invariant
            coeffs@.len() == ps.n,
            ok == (forall|j: int| 0 <= j < i ==> coeffs@[j] < 3),
    {
        if coeffs[i] >= 3 {
            ok = false;
        }
    }
    if !ok {
        proof {
            let bad = choose|j: int| 0 <= j < ps.n && coeffs@[j] >= 3;
            assert(word_val(bytes@, 2, bad) == coeffs@[bad]);
            assert(!(forall|i: int| 0 <= i < ps.n ==> word_val(bytes@, 2, i) < 3));
        }
        return Err(CodecError::InvalidEncoding);
    }
    proof {
        assert forall|i: int| 0 <= i < ps.n implies word_val(bytes@, 2, i) < 3 by {
            assert(coeffs@[i] == word_val(bytes@, 2, i));
        }
        let got = Seq::new(ps.n as nat, |i: int| word_val(bytes@, 2, i) as u16);
        assert(coeffs@ =~= got);
    }
    Ok(Poly { coeffs })
}

impl PublicKey {
    /// Export as the fixed `public_len` byte encoding; importing the
    /// result yields this key back, bit for bit.
    pub fn export(&self, ps: &ParameterSet) -> (r: Vec<u8>)
        requires
            params_wf(*ps),
            public_key_wf(*self, *ps),
        ensures
            r@.len() == spec_public_len(*ps),
            import_q_spec(r@, *ps) == Some(self.h@),
    {
        export_q_poly(&self.h, ps)
    }

    /// Import from the fixed-length encoding; exactly the buffers of the
    /// right length with clean trailing bits succeed.
    pub fn import(bytes: &Vec<u8>, ps: &ParameterSet) -> (r: Result<PublicKey, CodecError>)
        requires
            params_wf(*ps),
        ensures
            r matches Ok(k) ==> (import_q_spec(bytes@, *ps) == Some(k.h@) && public_key_wf(
                k,
                *ps,
            )),
            bytes@.len() != spec_public_len(*ps) <==> r == Err::<PublicKey, CodecError>(
                CodecError::LengthMismatch,
            ),
            (import_q_spec(bytes@, *ps) is None && bytes@.len() == spec_public_len(*ps)) <==> r
                == Err::<PublicKey, CodecError>(CodecError::InvalidEncoding),
            r is Ok <==> import_q_spec(bytes@, *ps) is Some,
    {
        match import_q_poly(bytes, ps) {
            Ok(p) => Ok(PublicKey { h: p }),
            Err(e) => Err(e),
        }
    }

    /// An identical copy of this key.
    pub fn duplicate(&self) -> (r: PublicKey)
        ensures
            r.h@ == self.h@,
    {
        PublicKey { h: self.h.duplicate() }
    }
}

impl PrivateKey {
    /// Export as the fixed `private_len` byte encoding of f; importing
    /// the result yields this key back, bit for bit.
    pub fn export(&self, ps: &ParameterSet) -> (r: Vec<u8>)
        requires
            params_wf(*ps),
            private_key_wf(*self, *ps),
        ensures
            r@.len() == spec_private_len(*ps),
            import_trits_spec(r@, *ps) == Some(self.f@),
    {
        export_trit_poly(&self.f, ps)
    }

    /// Import from the fixed-length encoding and enforce the key
    /// invariant: the buffer must have exactly the right length, clean
    /// trailing bits and trit codes, and the decoded polynomial must be
    /// invertible mod 3 and mod q.  A well-encoded buffer whose
    /// polynomial the bounded inverse search cannot invert is rejected as
    /// `InvalidEncoding` too.
    pub fn import(bytes: &Vec<u8>, ps: &ParameterSet) -> (r: Result<PrivateKey, CodecError>)
        requires
            params_wf(*ps),
        ensures
            r matches Ok(k) ==> (import_trits_spec(bytes@, *ps) == Some(k.f@) && private_key_wf(
                k,
                *ps,
            )),
            bytes@.len() != spec_private_len(*ps) <==> r == Err::<PrivateKey, CodecError>(
                CodecError::LengthMismatch,
            ),
            (import_trits_spec(bytes@, *ps) is None && bytes@.len() == spec_private_len(*ps))
                ==> r == Err::<PrivateKey, CodecError>(CodecError::InvalidEncoding),
            r == Err::<PrivateKey, CodecError>(CodecError::InvalidEncoding) ==> bytes@.len()
                == spec_private_len(*ps),
            import_trits_spec(bytes@, *ps) matches Some(s) ==> ((r matches Ok(k) && k.f@ == s)
                || r == Err::<PrivateKey, CodecError>(CodecError::InvalidEncoding)),
    {
        let f = match import_trit_poly(bytes, ps) {
            Ok(p) => p,
            Err(e) => {
                return Err(e);
            },
        };
        proof {
            lemma_q_bounds(*ps);
        }
        let f_inv_p = match invert_prime(&f, 3, ps.n) {
            Some(p) => p,
            None => {
                return Err(CodecError::InvalidEncoding);
            },
        };
        let fq = poly_lift_trits(&f, ps.q, ps.n);
        proof {
            assert(fq@ =~= lift_trits_spec(f@, ps.q as int));
        }
        let f_inv_q = match invert_pow2(&fq, ps.q, ps.q_bits, ps.n) {
            Some(p) => p,
            None => {
                return Err(CodecError::InvalidEncoding);
            },
        };
        Ok(PrivateKey { f, f_inv_p, f_inv_q })
    }

    /// An identical copy of this key.
    pub fn duplicate(&self) -> (r: PrivateKey)
        ensures
            r.f@ == self.f@,
            r.f_inv_p@ == self.f_inv_p@,
            r.f_inv_q@ == self.f_inv_q@,
    {
        PrivateKey {
            f: self.f.duplicate(),
            f_inv_p: self.f_inv_p.duplicate(),
            f_inv_q: self.f_inv_q.duplicate(),
        }
    }
}

impl Ciphertext {
    /// Export as the fixed `enc_len` byte encoding, identical in scheme
    /// to the public-key packing.
    pub fn export(&self, ps: &ParameterSet) -> (r: Vec<u8>)
        requires
            params_wf(*ps),
            ciphertext_wf(*self, *ps),
        ensures
            r@.len() == spec_public_len(*ps),
            import_q_spec(r@, *ps) == Some(self.e@),
    {
        export_q_poly(&self.e, ps)
    }

    /// Import from the fixed-length encoding; exactly the buffers of the
    /// right length with clean trailing bits succeed.
    pub fn import(bytes: &Vec<u8>, ps: &ParameterSet) -> (r: Result<Ciphertext, CodecError>)
        requires
            params_wf(*ps),
        ensures
            r matches Ok(c) ==> (import_q_spec(bytes@, *ps) == Some(c.e@) && ciphertext_wf(
                c,
                *ps,
            )),
            bytes@.len() != spec_public_len(*ps) <==> r == Err::<Ciphertext, CodecError>(
                CodecError::LengthMismatch,
            ),
            (import_q_spec(bytes@, *ps) is None && bytes@.len() == spec_public_len(*ps)) <==> r
                == Err::<Ciphertext, CodecError>(CodecError::InvalidEncoding),
            r is Ok <==> import_q_spec(bytes@, *ps) is Some,
    {
        match import_q_poly(bytes, ps) {
            Ok(p) => Ok(Ciphertext { e: p }),
            Err(e) => Err(e),
        }
    }
}

impl KeyPair {
    /// Pair a private key with the public key derived from it.
    pub fn new(private: PrivateKey, public: PublicKey) -> (r: KeyPair)
        ensures
            r.private == private,
            r.public == public,
    {
        KeyPair { private, public }
    }

    /// The public half.
    pub fn get_public(&self) -> (r: &PublicKey)
        ensures
            r == self.public,
    {
        &self.public
    }

    /// The private half.
    pub fn get_private(&self) -> (r: &PrivateKey)
        ensures
            r == self.private,
    {
        &self.private
    }
}

} // verus!
