//! The random sampling subsystem's entropy source: a handle to the
//! operating system's cryptographically secure generator, drawn through a
//! single trusted wrapper.  Nothing is assumed about the values drawn,
//! only about buffer lengths and ranges.

use vstd::prelude::*;

use crate::errors::SamplingError;

verus! {

/// Handle to the process-wide secure entropy source.  Constructing one
/// probes the source, so that an unavailable source is reported as
/// `RngUnavailable` at initialization time.
pub struct RandContext {}

/// Relies on getrandom::getrandom: on Ok the destination buffer has been
/// filled entirely from the operating system's secure entropy source.
/// Nothing is stated about the drawn values.
#[verifier::external_body]
fn os_random_bytes(n: usize) -> (r: Result<Vec<u8>, SamplingError>)
    ensures
        r matches Ok(v) ==> v@.len() == n,
        r matches Err(e) ==> e == SamplingError::RngUnavailable,
{
    let mut buf = vec![0u8; n];
    match getrandom::getrandom(&mut buf) {
        Ok(()) => Ok(buf),
        Err(_) => Err(SamplingError::RngUnavailable),
    }
}

/// Initialize the default entropy source, probing it once.
pub fn init() -> (r: Result<RandContext, SamplingError>)
    ensures
        r matches Err(e) ==> e == SamplingError::RngUnavailable,
{
    match os_random_bytes(1) {
        Ok(_) => Ok(RandContext {  }),
        Err(e) => Err(e),
    }
}

impl RandContext {
    /// Draw `n` fresh bytes from the secure source.
    pub fn random_bytes(&self, n: usize) -> (r: Result<Vec<u8>, SamplingError>)
        ensures
            r matches Ok(v) ==> v@.len() == n,
            r matches Err(e) ==> e == SamplingError::RngUnavailable,
    {
        os_random_bytes(n)
    }

    /// A uniformly random value below `bound`, found by bounded rejection
    /// sampling over 16-bit draws; fails with `SamplingExhausted` once
    /// the fixed retry budget is spent.
    pub fn uniform_below(&self, bound: u16) -> (r: Result<u16, SamplingError>)
        requires
            1 <= bound,
        ensures
            r matches Ok(v) ==> v < bound,
            r matches Err(e) ==> e == SamplingError::RngUnavailable || e
                == SamplingError::SamplingExhausted,
    {
        proof {
            vstd::arithmetic::div_mod::lemma_fundamental_div_mod(65536, bound as int);
            vstd::arithmetic::div_mod::lemma_mod_bound(65536, bound as int);
        }
        let span: u32 = (65536u32 / bound as u32) * bound as u32;
        for _attempt in 0..64usize
            invariant
                1 <= bound,
                span == (65536u32 / bound as u32) * bound as u32,
        {
            let bytes = match self.random_bytes(2) {
                Ok(b) => b,
                Err(e) => {
                    return Err(e);
                },
            };
            let v: u32 = bytes[0] as u32 + 256 * (bytes[1] as u32);
            if v < span {
                return Ok((v % bound as u32) as u16);
            }
        }
        Err(SamplingError::SamplingExhausted)
    }
}

} // verus!
