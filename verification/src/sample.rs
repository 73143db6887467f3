//! Trinary-polynomial sampling: polynomials with a prescribed number of
//! +1 and -1 coefficients (stored as 1 and 2), positions chosen uniformly
//! at random without replacement by bounded rejection sampling.

use vstd::prelude::*;

use crate::errors::SamplingError;
use crate::poly::{poly_wf, Poly};
use crate::rng::RandContext;

verus! {

/// How many coefficients of the sequence hold the value v.
pub open spec fn count_val(s: Seq<u16>, v: u16) -> int
    decreases s.len(),
{
    if s.len() == 0 {
        0
    } else {
        count_val(s.drop_last(), v) + if s.last() == v {
            1int
        } else {
            0int
        }
    }
}

/// How a single coefficient update moves each count.
proof fn lemma_count_update(s: Seq<u16>, v: u16, i: int, x: u16)
    requires
        0 <= i < s.len(),
    ensures
        count_val(s.update(i, x), v) == count_val(s, v) - (if s[i] == v {
            1int
        } else {
            0int
        }) + (if x == v {
            1int
        } else {
            0int
        }),
    decreases s.len(),
{
    if i == s.len() - 1 {
        assert(s.update(i, x).drop_last() =~= s.drop_last());
    } else {
        lemma_count_update(s.drop_last(), v, i, x);
        assert(s.update(i, x).drop_last() =~= s.drop_last().update(i, x));
        assert(s.update(i, x).last() == s.last());
    }
}

/// The all-zero sequence holds no nonzero value.
proof fn lemma_count_zeros(s: Seq<u16>, v: u16)
    requires
        v != 0,
        forall|i: int| 0 <= i < s.len() ==> s[i] == 0,
    ensures
        count_val(s, v) == 0,
    decreases s.len(),
{
    if s.len() > 0 {
        lemma_count_zeros(s.drop_last(), v);
    }
}

/// Place `count` copies of `value` into uniformly chosen zero positions
/// of the coefficient vector, by rejection sampling with a fixed budget.
fn place_values(
    rand: &RandContext,
    coeffs: &mut Vec<u16>,
    value: u16,
    count: usize,
    n: usize,
) -> (r: Result<(), SamplingError>)
    requires
        value == 1 || value == 2,
        2 <= n <= 2048,
        count <= n,
        poly_wf(old(coeffs)@, 3, n as int),
    ensures
        poly_wf(final(coeffs)@, 3, n as int),
        r matches Ok(u) ==> count_val(final(coeffs)@, value) == count_val(old(coeffs)@, value)
            + count,
        forall|w: u16|
            w != value && w != 0 ==> count_val(final(coeffs)@, w) == count_val(old(coeffs)@, w),
        r matches Err(e) ==> e == SamplingError::RngUnavailable || e
            == SamplingError::SamplingExhausted,
{
    let mut placed: usize = 0;
    let budget: usize = 64 * count + 256;
    for _attempt in 0..budget
        invariant
            value == 1 || value == 2,
            2 <= n <= 2048,
            count <= n,
            placed <= count,
            poly_wf(coeffs@, 3, n as int),
            count_val(coeffs@, value) == count_val(old(coeffs)@, value) + placed,
            forall|w: u16|
                w != value && w != 0 ==> count_val(coeffs@, w) == count_val(old(coeffs)@, w),
    {
        if placed < count {
            let idx16 = match rand.uniform_below(n as u16) {
                Ok(v) => v,
                Err(e) => {
                    return Err(e);
                },
            };
            let idx = idx16 as usize;
            if coeffs[idx] == 0 {
                proof {
                    let s0 = coeffs@;
                    assert forall|w: u16| w != 0 implies count_val(s0.update(idx as int, value), w)
                        == count_val(s0, w) + (if w == value {
                        1int
                    } else {
                        0int
                    }) by {
                        lemma_count_update(s0, w, idx as int, value);
                    }
                }
                coeffs.set(idx, value);
                placed = placed + 1;
            }
        }
    }
    if placed == count {
        Ok(())
    } else {
        Err(SamplingError::SamplingExhausted)
    }
}

/// Sample a trinary polynomial of degree below n with exactly `num_ones`
/// coefficients set to +1 and `num_neg_ones` set to -1 (stored as 2), the
/// positions uniformly random without replacement.  Rejection sampling is
/// bounded: a spent retry budget surfaces as `SamplingExhausted`.
pub fn sample_trinary(
    rand: &RandContext,
    num_ones: usize,
    num_neg_ones: usize,
    n: usize,
) -> (r: Result<Poly, SamplingError>)
    requires
        2 <= n <= 2048,
        num_ones + num_neg_ones <= n,
    ensures
        r matches Ok(p) ==> {
            &&& poly_wf(p@, 3, n as int)
            &&& count_val(p@, 1) == num_ones
            &&& count_val(p@, 2) == num_neg_ones
        },
        r matches Err(e) ==> e == SamplingError::RngUnavailable || e
            == SamplingError::SamplingExhausted,
{
    let mut coeffs: Vec<u16> = vec![0u16; n];
    proof {
        lemma_count_zeros(coeffs@, 1);
        lemma_count_zeros(coeffs@, 2);
    }
    match place_values(rand, &mut coeffs, 1, num_ones, n) {
        Ok(u) => u,
        Err(e) => {
            return Err(e);
        },
    };
    match place_values(rand, &mut coeffs, 2, num_neg_ones, n) {
        Ok(u) => u,
        Err(e) => {
            return Err(e);
        },
    };
    Ok(Poly { coeffs })
}

} // verus!
