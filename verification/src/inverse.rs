//! Multiplicative inversion in Z_m[x]/(x^N - 1), for the prime moduli 2
//! and 3 (almost-inverse reduction) and for a power-of-two modulus
//! (inversion mod 2 followed by Hensel lifting through repeated squaring
//! of the error term).
//!
//! Every candidate inverse the internal search produces is multiplied
//! back against the input and compared with the ring unit before it is
//! returned, so `Some(b)` always carries a genuine inverse; the search
//! itself only needs to be panic-free.  All coefficient loops run over
//! fixed full-length buffers with no data-dependent early exit.

use vstd::prelude::*;

use crate::poly::{conv_at, poly_is_inverse, poly_mult, poly_check_unit, poly_wf, Poly};

verus! {

/// Multiplicative inverse of a nonzero residue for the tiny moduli 2 / 3.
fn inv0(x: u16, m: u16) -> (r: u16)
    requires
        m == 2 || m == 3,
    ensures
        r < m,
{
    if m == 2 {
        1
    } else if x % 3 == 2 {
        2
    } else {
        1
    }
}

/// Shift every coefficient one degree down (divide by x), zeroing the top.
fn vec_shift_down(f: &mut Vec<u16>, m: u16, len: usize)
    requires
        2 <= m,
        1 <= len,
        poly_wf(old(f)@, m as int, len as int),
    ensures
        poly_wf(final(f)@, m as int, len as int),
{
    for i in 0..len - 1
        invariant
            1 <= len,
            f@.len() == len,
            poly_wf(f@, m as int, len as int),
    {
        let v = f[i + 1];
        f.set(i, v);
    }
    f.set(len - 1, 0);
}

/// Shift every coefficient one degree up (multiply by x), zeroing the
/// constant term; the top coefficient is discarded.
fn vec_shift_up(c: &mut Vec<u16>, m: u16, len: usize)
    requires
        2 <= m,
        1 <= len,
        poly_wf(old(c)@, m as int, len as int),
    ensures
        poly_wf(final(c)@, m as int, len as int),
{
    let mut i: usize = len - 1;
    while i > 0
        invariant
            1 <= len,
            i < len,
            c@.len() == len,
            poly_wf(c@, m as int, len as int),
        decreases i,
    {
        let v = c[i - 1];
        c.set(i, v);
        i = i - 1;
    }
    c.set(0, 0);
}

/// True when every coefficient is zero.
fn vec_is_zero(f: &Vec<u16>, len: usize) -> (r: bool)
    requires
        f@.len() == len,
{
    let mut all_zero = true;
    for i in 0..len
        invariant
            f@.len() == len,
    {
        if f[i] != 0 {
            all_zero = false;
        }
    }
    all_zero
}

/// Largest index with a nonzero coefficient (0 for the zero vector).
fn top_degree(f: &Vec<u16>, len: usize) -> (r: usize)
    requires
        1 <= len,
        f@.len() == len,
    ensures
        r < len,
{
    let mut d: usize = 0;
    for i in 0..len
        invariant
            f@.len() == len,
            d < len,
    {
        if f[i] != 0 {
            d = i;
        }
    }
    d
}

/// In place: f := f - u * g modulo m.
fn vec_submul(f: &mut Vec<u16>, g: &Vec<u16>, u: u16, m: u16, len: usize)
    requires
        2 <= m <= 2048,
        u < m,
        poly_wf(old(f)@, m as int, len as int),
        poly_wf(g@, m as int, len as int),
    ensures
        poly_wf(final(f)@, m as int, len as int),
{
    for i in 0..len
        invariant
            2 <= m <= 2048,
            u < m,
            f@.len() == len,
            poly_wf(f@, m as int, len as int),
            poly_wf(g@, m as int, len as int),
    {
        proof {
            assert((g@[i as int] as int) * (u as int) <= 2047 * 2047) by (nonlinear_arith)
                requires
                    g@[i as int] < 2048,
                    u < 2048,
            ;
        }
        let t: u32 = (g[i] as u32 * u as u32) % m as u32;
        let v: u32 = (f[i] as u32 + m as u32 - t) % m as u32;
        f.set(i, v as u16);
    }
}

/// Scale by the inverse of the trailing unit, fold the degree-N
/// coefficient onto degree 0 (x^N is 1 in the ring) and rotate by
/// x^(N - k): the final assembly of the almost-inverse reduction.
fn finish_candidate(b: &Vec<u16>, f0: u16, k: usize, m: u16, n: usize) -> (r: Poly)
    requires
        m == 2 || m == 3,
        2 <= n <= 2048,
        b@.len() == n + 1,
        poly_wf(b@, m as int, (n + 1) as int),
    ensures
        poly_wf(r@, m as int, n as int),
{
    let inv = inv0(f0, m);
    let shift: usize = (n - (k % n)) % n;
    let mut out: Vec<u16> = vec![0u16; n];
    for i in 0..n
        invariant
            m == 2 || m == 3,
            2 <= n <= 2048,
            shift < n,
            inv < m,
            b@.len() == n + 1,
            poly_wf(b@, m as int, (n + 1) as int),
            out@.len() == n,
            forall|j: int| 0 <= j < n ==> out@[j] < m,
    {
        let folded: u16 = if i == 0 {
            ((b[0] as u32 + b[n] as u32) % m as u32) as u16
        } else {
            b[i]
        };
        proof {
            assert((folded as int) * (inv as int) <= 4) by (nonlinear_arith)
                requires
                    folded < 3,
                    inv < 3,
            ;
        }
        let val: u16 = ((folded as u32 * inv as u32) % m as u32) as u16;
        let target: usize = (i + shift) % n;
        out.set(target, val);
    }
    Poly { coeffs: out }
}

/// Almost-inverse reduction for a prime modulus (2 or 3): returns a
/// candidate inverse, or None when the reduction finds no unit within
/// its iteration budget.
fn almost_inverse_prime(a: &Poly, m: u16, n: usize) -> (r: Option<Poly>)
    requires
        m == 2 || m == 3,
        2 <= n <= 2048,
        poly_wf(a@, m as int, n as int),
    ensures
        r matches Some(b) ==> poly_wf(b@, m as int, n as int),
{
    let len = n + 1;
    let mut k: usize = 0;
    let mut b: Vec<u16> = vec![0u16; len];
    b.set(0, 1);
    let mut c: Vec<u16> = vec![0u16; len];
    let mut f: Vec<u16> = a.duplicate().coeffs;
    f.push(0);
    let mut g: Vec<u16> = vec![0u16; len];
    g.set(0, m - 1);
    g.set(n, 1);
    let mut out: Option<Poly> = None;
    let mut done = false;
    let rounds = 8 * n + 8;
    for _iter in 0..rounds
        invariant
            m == 2 || m == 3,
            2 <= n <= 2048,
            len == n + 1,
            poly_wf(b@, m as int, len as int),
            poly_wf(c@, m as int, len as int),
            poly_wf(f@, m as int, len as int),
            poly_wf(g@, m as int, len as int),
            out matches Some(p) ==> poly_wf(p@, m as int, n as int),
    {
        if !done {
            if f[0] == 0 {
                if vec_is_zero(&f, len) {
                    // not invertible: no unit will ever appear
                    done = true;
                } else {
                    vec_shift_down(&mut f, m, len);
                    vec_shift_up(&mut c, m, len);
                    if k < usize::MAX - 1 {
                        k = k + 1;
                    }
                }
            } else {
                let df = top_degree(&f, len);
                if df == 0 {
                    out = Some(finish_candidate(&b, f[0], k, m, n));
                    done = true;
                } else {
                    let dg = top_degree(&g, len);
                    if df < dg {
                        let tf = f;
                        f = g;
                        g = tf;
                        let tb = b;
                        b = c;
                        c = tb;
                    }
                    let g0 = g[0];
                    let gi = inv0(g0, m);
                    let f0 = f[0];
                    proof {
                        assert((f0 as int) * (gi as int) <= 4) by (nonlinear_arith)
                            requires
                                f0 < 3,
                                gi < 3,
                        ;
                    }
                    let u: u16 = ((f0 as u32 * gi as u32) % m as u32) as u16;
                    vec_submul(&mut f, &g, u, m, len);
                    vec_submul(&mut b, &c, u, m, len);
                }
            }
        }
    }
    out
}

/// Inversion modulo a prime modulus m (2 or 3): any returned polynomial
/// is checked, by ring multiplication, to be a genuine inverse.  The
/// search is sound but not proven complete: `None` means no inverse was
/// found within the bounded reduction, so callers that need success
/// either retry with a fresh candidate or reject the input.
pub fn invert_prime(a: &Poly, m: u16, n: usize) -> (r: Option<Poly>)
    requires
        m == 2 || m == 3,
        2 <= n <= 2048,
        poly_wf(a@, m as int, n as int),
    ensures
        r matches Some(b) ==> poly_is_inverse(a@, b@, m as int, n as int),
{
    match almost_inverse_prime(a, m, n) {
        None => None,
        Some(cand) => {
            let prod = poly_mult(a, &cand, m, n);
            if poly_check_unit(&prod, n) {
                proof {
                    assert(prod@[0] == conv_at(a@, cand@, m as int, 0));
                    assert forall|k: int| 1 <= k < n implies #[trigger] conv_at(
                        a@,
                        cand@,
                        m as int,
                        k,
                    ) == 0 by {
                        assert(prod@[k] == conv_at(a@, cand@, m as int, k));
                    }
                }
                Some(cand)
            } else {
                None
            }
        },
    }
}

/// Reduce every coefficient modulo the smaller modulus m.
fn reduce_mod(a: &Poly, m: u16, n: usize) -> (r: Poly)
    requires
        2 <= m,
        a@.len() == n,
    ensures
        poly_wf(r@, m as int, n as int),
{
    let mut out: Vec<u16> = Vec::new();
    for i in 0..n
        invariant
            2 <= m,
            a@.len() == n,
            out@.len() == i,
            forall|j: int| 0 <= j < i ==> out@[j] < m,
    {
        out.push(a.coeffs[i] % m);
    }
    Poly { coeffs: out }
}

/// The polynomial 2 - t modulo q: the error-term step of the Hensel lift.
fn two_minus(t: &Poly, q: u16, n: usize) -> (r: Poly)
    requires
        4 <= q,
        poly_wf(t@, q as int, n as int),
    ensures
        poly_wf(r@, q as int, n as int),
{
    let mut out: Vec<u16> = Vec::new();
    for i in 0..n
        invariant
            4 <= q,
            poly_wf(t@, q as int, n as int),
            out@.len() == i,
            forall|j: int| 0 <= j < i ==> out@[j] < q,
    {
        let v: u16 = if i == 0 {
            ((2u32 + q as u32 - t.coeffs[0] as u32) % q as u32) as u16
        } else {
            ((q as u32 - t.coeffs[i] as u32) % q as u32) as u16
        };
        out.push(v);
    }
    Poly { coeffs: out }
}

/// Inversion modulo the power-of-two modulus q: invert mod 2, then lift
/// the inverse to q by Newton iteration (b := b * (2 - a*b)); the lifted
/// candidate is checked by ring multiplication before it is returned.
pub fn invert_pow2(a: &Poly, q: u16, q_bits: u16, n: usize) -> (r: Option<Poly>)
    requires
        2 <= q_bits <= 11,
        q == 1u16 << q_bits,
        2 <= n <= 2048,
        poly_wf(a@, q as int, n as int),
    ensures
        r matches Some(b) ==> poly_is_inverse(a@, b@, q as int, n as int),
{
    proof {
        assert(4 <= (1u16 << q_bits) <= 2048) by (bit_vector)
            requires
                2 <= q_bits <= 11,
        ;
    }
    let a2 = reduce_mod(a, 2, n);
    let b2 = match invert_prime(&a2, 2, n) {
        None => {
            return None;
        },
        Some(b2) => b2,
    };
    // coefficients of b2 are 0 or 1, so b2 is already reduced mod q
    let mut b = Poly { coeffs: b2.coeffs };
    proof {
        assert(poly_wf(b@, q as int, n as int));
    }
    for _round in 0..5usize
        invariant
            4 <= q <= 2048,
            2 <= n <= 2048,
            poly_wf(a@, q as int, n as int),
            poly_wf(b@, q as int, n as int),
    {
        let t = poly_mult(a, &b, q, n);
        let e = two_minus(&t, q, n);
        b = poly_mult(&b, &e, q, n);
    }
    let prod = poly_mult(a, &b, q, n);
    if poly_check_unit(&prod, n) {
        proof {
            assert(prod@[0] == conv_at(a@, b@, q as int, 0));
            assert forall|k: int| 1 <= k < n implies #[trigger] conv_at(a@, b@, q as int, k)
                == 0 by {
                assert(prod@[k] == conv_at(a@, b@, q as int, k));
            }
        }
        Some(b)
    } else {
        None
    }
}

/// Multiplicative inverse of `a` modulo (m, x^N - 1) for the moduli the
/// parameter sets use: the prime moduli 2 and 3, and a power-of-two large
/// modulus.  `Some(b)` always satisfies `poly_is_inverse`; `None` means
/// the bounded search found no inverse (soundness is verified,
/// completeness is not claimed).
pub fn invert(a: &Poly, m: u16, n: usize) -> (r: Option<Poly>)
    requires
        m == 2 || m == 3 || (exists|bits: u16| 2 <= bits <= 11 && m == (1u16 << bits)),
        2 <= n <= 2048,
        poly_wf(a@, m as int, n as int),
    ensures
        r matches Some(b) ==> poly_is_inverse(a@, b@, m as int, n as int),
{
    if m == 2 || m == 3 {
        invert_prime(a, m, n)
    } else {
        let mut bits: u16 = 2;
        while bits < 11 && (1u16 << bits) != m
            invariant
                2 <= bits <= 11,
            decreases 11 - bits,
        {
            bits = bits + 1;
        }
        if (1u16 << bits) == m {
            invert_pow2(a, m, bits, n)
        } else {
            None
        }
    }
}

} // verus!
