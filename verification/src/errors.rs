//! Typed failure kinds for every engine operation.

use vstd::prelude::*;

verus! {

/// Failure of the parameter-set registry.
#[derive(Clone, Copy, Debug, PartialEq, Eq, Structural)]
pub enum ParameterError {
    /// The requested parameter-set name is not registered.
    UnknownParameterSet,
}

/// Failure of the random sampling subsystem.
#[derive(Clone, Copy, Debug, PartialEq, Eq, Structural)]
pub enum SamplingError {
    /// The secure entropy source could not be initialized or queried.
    RngUnavailable,
    /// Bounded rejection sampling ran out of its retry budget.
    SamplingExhausted,
}

/// Failure of key generation.
#[derive(Clone, Copy, Debug, PartialEq, Eq, Structural)]
pub enum KeyGenError {
    /// No invertible private candidate was found within the retry budget.
    NoInvertibleCandidate,
    /// The sampling subsystem failed while drawing a candidate.
    Sampling(SamplingError),
}

/// Failure of encryption.
#[derive(Clone, Copy, Debug, PartialEq, Eq, Structural)]
pub enum EncryptError {
    /// The plaintext exceeds the parameter set's maximum message length.
    MessageTooLong,
    /// The sampling subsystem failed while drawing the blinding polynomial.
    Sampling(SamplingError),
}

/// Failure of decryption.
#[derive(Clone, Copy, Debug, PartialEq, Eq, Structural)]
pub enum DecryptError {
    /// The decoded padding structure does not match the expected pattern;
    /// covers corrupted ciphertexts and wrong-key decryption attempts.
    IntegrityCheckFailed,
    /// The decoded message length is inconsistent with the parameter set.
    DecodingError,
}

/// Failure of the fixed-length binary codec.
#[derive(Clone, Copy, Debug, PartialEq, Eq, Structural)]
pub enum CodecError {
    /// The encoded buffer does not have exactly the expected length.
    LengthMismatch,
    /// The buffer has the right length but holds an invalid encoding, or
    /// (for a private key) a polynomial that fails the key invariant
    /// because no inverse mod 3 and mod q was found for it.
    InvalidEncoding,
}

} // verus!
