//! The parameter-set registry: immutable named configurations of the ring
//! degree, the moduli, the sampling weights and the padding and length rules.

use vstd::prelude::*;
use vstd::string::StrSliceExecFns;

use crate::errors::ParameterError;

verus! {

/// A named NTRU configuration.  All derived encoding lengths are pure
/// functions of these fields; the accessors below compute them.
#[derive(Clone, Copy, Debug, PartialEq, Eq, Structural)]
pub struct ParameterSet {
    /// Ring degree N: polynomials live in Z[x]/(x^N - 1).
    pub n: usize,
    /// Large modulus q, a power of two.
    pub q: u16,
    /// Number of bits of q: q == 1 << q_bits.
    pub q_bits: u16,
    /// Small modulus p, fixed to 3.
    pub p: u16,
    /// Number of +1 coefficients of the private polynomial f.
    pub df_ones: usize,
    /// Number of -1 coefficients of the private polynomial f.
    pub df_neg_ones: usize,
    /// Number of +1 (and of -1) coefficients of the key-generation polynomial g.
    pub dg: usize,
    /// Number of +1 (and of -1) coefficients of the blinding polynomial r.
    pub dr: usize,
    /// Number of random padding bits embedded into each message polynomial.
    pub db: usize,
    /// Maximum plaintext length in bytes.
    pub max_msg: usize,
}

/// Well-formedness of a parameter set: the bounds every engine operation
/// relies on.  The message layout (an 8-bit length, `8 * max_msg` message
/// bits, `db` padding bits and at least one marker coefficient) must fit
/// inside the ring degree.
pub open spec fn params_wf(ps: ParameterSet) -> bool {
    &&& 2 <= ps.n <= 2048
    &&& 8 <= ps.q_bits <= 11
    &&& ps.q == 1u16 << ps.q_bits
    &&& ps.p == 3
    &&& ps.df_ones + ps.df_neg_ones <= ps.n
    &&& 2 * ps.dg <= ps.n
    &&& 2 * ps.dr <= ps.n
    &&& ps.max_msg < 256
    &&& 8 + 8 * ps.max_msg + ps.db < ps.n
}

/// Length in bytes of the packed public-key (and ciphertext) encoding:
/// N coefficients of q_bits bits each, little-endian bit-packed.
pub open spec fn spec_public_len(ps: ParameterSet) -> int {
    (ps.n * ps.q_bits + 7) / 8
}

/// Length in bytes of the packed private-key encoding: N trinary
/// coefficients of 2 bits each, little-endian bit-packed.
pub open spec fn spec_private_len(ps: ParameterSet) -> int {
    (ps.n * 2 + 7) / 8
}

impl ParameterSet {
    /// Ring degree N.
    pub fn get_n(&self) -> (r: usize)
        ensures
            r == self.n,
    {
        self.n
    }

    /// Large modulus q.
    pub fn get_q(&self) -> (r: u16)
        ensures
            r == self.q,
    {
        self.q
    }

    /// Small modulus p (always 3).
    pub fn get_p(&self) -> (r: u16)
        ensures
            r == self.p,
    {
        self.p
    }

    /// Number of random padding bits per message polynomial.
    pub fn get_db(&self) -> (r: usize)
        ensures
            r == self.db,
    {
        self.db
    }

    /// Maximum plaintext length in bytes.
    pub fn max_msg_len(&self) -> (r: usize)
        ensures
            r == self.max_msg,
    {
        self.max_msg
    }

    /// Fixed byte length of an exported public key.
    pub fn public_len(&self) -> (r: usize)
        requires
            params_wf(*self),
        ensures
            r == spec_public_len(*self),
    {
        proof {
            assert(self.n * self.q_bits <= 2048 * 11) by (nonlinear_arith)
                requires
                    self.n <= 2048,
                    self.q_bits <= 11,
            ;
        }
        (self.n * (self.q_bits as usize) + 7) / 8
    }

    /// Fixed byte length of an exported private key.
    pub fn private_len(&self) -> (r: usize)
        requires
            params_wf(*self),
        ensures
            r == spec_private_len(*self),
    {
        (self.n * 2 + 7) / 8
    }

    /// Fixed byte length of an exported ciphertext (identical packing to
    /// the public key).
    pub fn enc_len(&self) -> (r: usize)
        requires
            params_wf(*self),
        ensures
            r == spec_public_len(*self),
    {
        proof {
            assert(self.n * self.q_bits <= 2048 * 11) by (nonlinear_arith)
                requires
                    self.n <= 2048,
                    self.q_bits <= 11,
            ;
        }
        (self.n * (self.q_bits as usize) + 7) / 8
    }

    /// The registered name of this library's built-in parameter set.
    pub fn get_name(&self) -> (r: String)
        ensures
            r@ == default_params_name(),
    {
        "std-256".to_owned()
    }
}

/// The bounds on q that params_wf promises, in arithmetic form.
pub proof fn lemma_q_bounds(ps: ParameterSet)
    requires
        params_wf(ps),
    ensures
        256 <= ps.q <= 2048,
{
    let b = ps.q_bits;
    assert(256 <= (1u16 << b) <= 2048) by (bit_vector)
        requires
            8 <= b <= 11,
    ;
}

/// The name under which the default 256-bit-profile set is registered.
pub open spec fn default_params_name() -> Seq<char> {
    "std-256"@
}

/// The field values of the built-in "256-bit security" profile.
pub open spec fn spec_default_params() -> ParameterSet {
    (ParameterSet {
        n: 743,
        q: 2048,
        q_bits: 11,
        p: 3,
        df_ones: 107,
        df_neg_ones: 106,
        dg: 106,
        dr: 106,
        db: 128,
        max_msg: 64,
    })
}

/// The built-in "256-bit security" profile: N = 743 (prime), q = 2048,
/// p = 3.  The sampling weights are small enough that every coefficient of
/// p*(r*g) + f*m lies strictly inside (-q/2, q/2], so decryption of an
/// honestly produced ciphertext can never fail.
pub fn default_params_256() -> (ps: ParameterSet)
    ensures
        params_wf(ps),
        ps == spec_default_params(),
        ps.n == 743,
        ps.q == 2048,
        ps.q_bits == 11,
        ps.p == 3,
        ps.df_ones == 107,
        ps.df_neg_ones == 106,
        ps.dg == 106,
        ps.dr == 106,
        ps.db == 128,
        ps.max_msg == 64,
{
    let ps = ParameterSet {
        n: 743,
        q: 2048,
        q_bits: 11,
        p: 3,
        df_ones: 107,
        df_neg_ones: 106,
        dg: 106,
        dr: 106,
        db: 128,
        max_msg: 64,
    };
    proof {
        assert(2048u16 == 1u16 << 11u16) by (bit_vector);
    }
    ps
}

/// Character-wise string equality; used by the registry lookup.
fn str_eq(a: &str, b: &str) -> (r: bool)
    ensures
        r == (a@ == b@),
{
    let alen = a.unicode_len();
    let blen = b.unicode_len();
    if alen != blen {
        proof {
            assert(a@.len() != b@.len());
        }
        return false;
    }
    for i in 0..alen
        invariant
            alen == a@.len(),
            alen == b@.len(),
            forall|j: int| 0 <= j < i ==> a@[j] == b@[j],
    {
        if a.get_char(i) != b.get_char(i) {
            return false;
        }
    }
    proof {
        assert(a@ =~= b@);
    }
    true
}

/// Look a parameter set up by name.  Exactly the registered names succeed;
/// any other name fails with `UnknownParameterSet`.
pub fn lookup(name: &str) -> (r: Result<ParameterSet, ParameterError>)
    ensures
        name@ == default_params_name() ==> (r matches Ok(ps) && ps == spec_default_params()),
        name@ != default_params_name() ==> r == Err::<ParameterSet, ParameterError>(
            ParameterError::UnknownParameterSet,
        ),
{
    if str_eq(name, "std-256") {
        Ok(default_params_256())
    } else {
        Err(ParameterError::UnknownParameterSet)
    }
}

} // verus!
