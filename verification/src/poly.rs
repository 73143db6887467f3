//! The polynomial ring engine: representation and arithmetic over the
//! truncated ring Z_m[x]/(x^N - 1), for the small modulus p = 3 and the
//! large power-of-two modulus q.
//!
//! A `Poly` is an ordered sequence of N coefficients, each reduced into
//! [0, m) for the modulus m of its context; the context is carried by the
//! contracts (`poly_wf`), never mixed silently.

use vstd::prelude::*;
use vstd::arithmetic::div_mod::{
    lemma_mod_add_multiples_vanish, lemma_mod_multiples_vanish, lemma_fundamental_div_mod,
    lemma_add_mod_noop, lemma_small_mod,
};

verus! {

/// A polynomial of the truncated ring, one coefficient per degree.
pub struct Poly {
    pub coeffs: Vec<u16>,
}

impl View for Poly {
    type V = Seq<u16>;

    open spec fn view(&self) -> Seq<u16> {
        self.coeffs@
    }
}

/// The coefficient sequence is exactly `n` long and reduced modulo `m`.
pub open spec fn poly_wf(s: Seq<u16>, m: int, n: int) -> bool {
    &&& s.len() == n
    &&& forall|i: int| 0 <= i < n ==> s[i] < m
}

/// Partial cyclic-convolution sum: the first `i` terms of
/// sum over j of a[j] * b[(k - j) mod N].
pub open spec fn conv_sum(a: Seq<u16>, b: Seq<u16>, k: int, i: int) -> int
    decreases i,
{
    if i <= 0 {
        0
    } else {
        conv_sum(a, b, k, i - 1) + a[i - 1] * b[(k - (i - 1)) % (a.len() as int)]
    }
}

/// Coefficient k of the cyclic convolution of a and b, reduced mod m.
pub open spec fn conv_at(a: Seq<u16>, b: Seq<u16>, m: int, k: int) -> int {
    conv_sum(a, b, k, a.len() as int) % m
}

/// The multiplicative unit of the ring: constant polynomial 1.
pub open spec fn poly_is_unit(s: Seq<u16>) -> bool {
    &&& s[0] == 1
    &&& forall|i: int| 1 <= i < s.len() ==> s[i] == 0
}

/// b is a multiplicative inverse of a in Z_m[x]/(x^N - 1).
pub open spec fn poly_is_inverse(a: Seq<u16>, b: Seq<u16>, m: int, n: int) -> bool {
    &&& poly_wf(b, m, n)
    &&& conv_at(a, b, m, 0) == 1
    &&& forall|k: int| 1 <= k < n ==> conv_at(a, b, m, k) == 0
}

/// Centered residue: v interpreted in (-m/2, m/2] instead of [0, m).
pub open spec fn centered(v: int, m: int) -> int {
    if v <= m / 2 {
        v
    } else {
        v - m
    }
}

/// The trinary coefficient t in {0, 1, 2} lifted to the mod-m ring,
/// reading 2 as -1.
pub open spec fn lift_trit(t: u16, m: int) -> int {
    if t == 2 {
        m - 1
    } else {
        t as int
    }
}

/// A trinary coefficient sequence lifted into the mod-m ring.
pub open spec fn lift_trits_spec(s: Seq<u16>, m: int) -> Seq<u16> {
    Seq::new(s.len(), |i: int| lift_trit(s[i], m) as u16)
}

impl Poly {
    /// An identical copy of this polynomial.
    pub fn duplicate(&self) -> (r: Poly)
        ensures
            r@ == self@,
    {
        let mut c: Vec<u16> = Vec::new();
        let len = self.coeffs.len();
        for i in 0..len
            invariant
                c@.len() == i,
                len == self@.len(),
                forall|j: int| 0 <= j < i ==> c@[j] == self@[j],
        {
            c.push(self.coeffs[i]);
        }
        proof {
            assert(c@ =~= self@);
        }
        Poly { coeffs: c }
    }
}

/// Coefficient-wise sum reduced mod m.
pub fn poly_add(a: &Poly, b: &Poly, m: u16, n: usize) -> (r: Poly)
    requires
        2 <= m,
        1 <= n,
        poly_wf(a@, m as int, n as int),
        poly_wf(b@, m as int, n as int),
    ensures
        poly_wf(r@, m as int, n as int),
        forall|k: int| 0 <= k < n ==> r@[k] == (a@[k] + b@[k]) % (m as int),
{
    let mut c: Vec<u16> = Vec::new();
    for i in 0..n
        invariant
            c@.len() == i,
            2 <= m,
            poly_wf(a@, m as int, n as int),
            poly_wf(b@, m as int, n as int),
            forall|k: int| 0 <= k < i ==> c@[k] == (a@[k] + b@[k]) % (m as int),
    {
        let s: u32 = a.coeffs[i] as u32 + b.coeffs[i] as u32;
        let v: u16 = (s % m as u32) as u16;
        c.push(v);
    }
    Poly { coeffs: c }
}

/// Cyclic convolution: result coefficient k is
/// sum over i of a[i] * b[(k - i) mod N], reduced mod m.
pub fn poly_mult(a: &Poly, b: &Poly, m: u16, n: usize) -> (r: Poly)
    requires
        2 <= m <= 2048,
        1 <= n <= 2048,
        poly_wf(a@, m as int, n as int),
        poly_wf(b@, m as int, n as int),
    ensures
        poly_wf(r@, m as int, n as int),
        forall|k: int| 0 <= k < n ==> r@[k] == conv_at(a@, b@, m as int, k),
{
    let mut c: Vec<u16> = Vec::new();
    for k in 0..n
        invariant
            c@.len() == k,
            2 <= m <= 2048,
            1 <= n <= 2048,
            poly_wf(a@, m as int, n as int),
            poly_wf(b@, m as int, n as int),
            forall|j: int| 0 <= j < k ==> c@[j] == conv_at(a@, b@, m as int, j),
    {
        let mut acc: u64 = 0;
        for i in 0..n
            invariant
                0 <= k < n,
                2 <= m <= 2048,
                1 <= n <= 2048,
                poly_wf(a@, m as int, n as int),
                poly_wf(b@, m as int, n as int),
                acc == conv_sum(a@, b@, k as int, i as int),
                acc <= (i as int) * 2047 * 2047,
        {
            let idx: usize = (k + n - i) % n;
            proof {
                lemma_mod_add_multiples_vanish(k as int - i as int, n as int);
                assert((a@[i as int] as int) * (b@[idx as int] as int) <= 2047 * 2047)
                    by (nonlinear_arith)
                    requires
                        a@[i as int] < 2048,
                        b@[idx as int] < 2048,
                ;
                assert((i as int + 1) * 2047 * 2047 == (i as int) * 2047 * 2047 + 2047 * 2047)
                    by (nonlinear_arith);
                assert((i as int) * 2047 * 2047 <= 2048 * 2047 * 2047) by (nonlinear_arith)
                    requires
                        0 <= i as int <= 2048,
                ;
            }
            acc = acc + (a.coeffs[i] as u64) * (b.coeffs[idx] as u64);
        }
        let v: u16 = (acc % m as u64) as u16;
        c.push(v);
    }
    Poly { coeffs: c }
}

/// Coefficient-wise product with the scalar s, reduced mod m.
pub fn poly_scalar_mult(a: &Poly, s: u16, m: u16, n: usize) -> (r: Poly)
    requires
        2 <= m <= 2048,
        s < m,
        poly_wf(a@, m as int, n as int),
    ensures
        poly_wf(r@, m as int, n as int),
        forall|k: int| 0 <= k < n ==> r@[k] == (a@[k] * s) % (m as int),
{
    let mut c: Vec<u16> = Vec::new();
    for i in 0..n
        invariant
            c@.len() == i,
            2 <= m <= 2048,
            s < m,
            poly_wf(a@, m as int, n as int),
            forall|k: int| 0 <= k < i ==> c@[k] == (a@[k] * s) % (m as int),
    {
        proof {
            assert((a@[i as int] as int) * (s as int) < 2048 * 2048) by (nonlinear_arith)
                requires
                    a@[i as int] < 2048,
                    s < 2048,
            ;
        }
        let prod: u32 = a.coeffs[i] as u32 * s as u32;
        let v: u16 = (prod % m as u32) as u16;
        c.push(v);
    }
    Poly { coeffs: c }
}

/// Lift a trinary polynomial (coefficients in {0, 1, 2}, with 2 read as
/// -1) into the mod-m ring.
pub fn poly_lift_trits(a: &Poly, m: u16, n: usize) -> (r: Poly)
    requires
        4 <= m,
        poly_wf(a@, 3, n as int),
    ensures
        poly_wf(r@, m as int, n as int),
        forall|k: int| 0 <= k < n ==> r@[k] == lift_trit(a@[k], m as int),
{
    let mut c: Vec<u16> = Vec::new();
    for i in 0..n
        invariant
            c@.len() == i,
            4 <= m,
            poly_wf(a@, 3, n as int),
            forall|k: int| 0 <= k < i ==> c@[k] == lift_trit(a@[k], m as int),
    {
        let t = a.coeffs[i];
        let v: u16 = if t == 2 {
            m - 1
        } else {
            t
        };
        c.push(v);
    }
    Poly { coeffs: c }
}

/// The centered residue of v - q agrees with v + ((3 - q % 3) % 3) mod 3.
proof fn lemma_center_shift(v: int, q: int)
    requires
        4 <= q,
    ensures
        (v - q) % 3 == (v + (3 - q % 3) % 3) % 3,
{
    let add = (3 - q % 3) % 3;
    lemma_fundamental_div_mod(q, 3);
    assert(0 <= q % 3 < 3);
    assert((q + add) % 3 == 0) by {
        lemma_add_mod_noop(q, add, 3);
        lemma_small_mod(add as nat, 3);
        if q % 3 == 0 {
            lemma_small_mod(0, 3);
        }
    };
    lemma_fundamental_div_mod(q + add, 3);
    lemma_mod_multiples_vanish((q + add) / 3, v - q, 3);
}

/// Reduce a mod-q polynomial into the mod-3 ring by first centering each
/// coefficient into (-q/2, q/2] and then reducing mod 3; used by the
/// decryptor before the final small-modulus arithmetic.
pub fn poly_center_mod3(a: &Poly, q: u16, n: usize) -> (r: Poly)
    requires
        4 <= q,
        poly_wf(a@, q as int, n as int),
    ensures
        poly_wf(r@, 3, n as int),
        forall|k: int| 0 <= k < n ==> r@[k] == centered(a@[k] as int, q as int) % 3,
{
    let add: u16 = (3 - q % 3) % 3;
    let mut c: Vec<u16> = Vec::new();
    for i in 0..n
        invariant
            c@.len() == i,
            4 <= q,
            add == (3 - q % 3) % 3,
            poly_wf(a@, q as int, n as int),
            forall|k: int| 0 <= k < i ==> c@[k] == centered(a@[k] as int, q as int) % 3,
    {
        let v = a.coeffs[i];
        let t: u16 = if v <= q / 2 {
            v % 3
        } else {
            proof {
                lemma_center_shift(v as int, q as int);
            }
            (v + add) % 3
        };
        c.push(t);
    }
    Poly { coeffs: c }
}

/// True exactly when the polynomial is the ring unit 1.
pub fn poly_check_unit(a: &Poly, n: usize) -> (r: bool)
    requires
        1 <= n,
        a@.len() == n,
    ensures
        r == poly_is_unit(a@),
{
    if a.coeffs[0] != 1 {
        return false;
    }
    for i in 1..n
        invariant
            1 <= n,
            a@.len() == n,
            a@[0] == 1,
            forall|j: int| 1 <= j < i ==> a@[j] == 0,
    {
        if a.coeffs[i] != 0 {
            return false;
        }
    }
    true
}

} // verus!
