//! An NTRU public-key cryptosystem: key generation, encryption and
//! decryption over the truncated polynomial ring Z_q[x]/(x^N - 1),
//! together with fixed-length binary codecs and base64 helpers for key
//! and ciphertext material.

pub mod bits;
pub mod engine;
pub mod errors;
pub mod inverse;
pub mod poly;
pub mod keys;
pub mod msg;
pub mod params;
pub mod rng;
pub mod sample;
pub mod text;
