//! Base64 text form of key material: the bridge between the fixed-length
//! binary encodings and the text files the surrounding application reads
//! and writes.  The base64 transform itself is an outside call; its
//! results are named, and everything around it (length validation,
//! import, export) is verified.

use vstd::prelude::*;

use crate::errors::CodecError;
use crate::keys::{
    import_q_spec, import_trits_spec, private_key_wf, public_key_wf, PrivateKey, PublicKey,
};
use crate::params::{params_wf, spec_private_len, spec_public_len, ParameterSet};

verus! {

/// The base64 text that base64-encoding a byte sequence produces.
pub uninterp spec fn b64_encode_of(bytes: Seq<u8>) -> Seq<char>;

/// What base64-decoding a text yields: the bytes for valid base64 text,
/// nothing otherwise.
pub uninterp spec fn b64_decode_of(text: Seq<char>) -> Option<Seq<u8>>;

/// Relies on base64::encode (standard alphabet): the text depends on the
/// bytes alone, and base64::decode inverts it, as the crate documents.
#[verifier::external_body]
fn b64_encode(bytes: &Vec<u8>) -> (r: String)
    ensures
        r@ == b64_encode_of(bytes@),
        b64_decode_of(r@) == Some(bytes@),
{
    base64::encode(bytes)
}

/// Relies on base64::decode: returns the decoded bytes exactly when the
/// text is valid base64, and fails otherwise.
#[verifier::external_body]
fn b64_decode(text: &str) -> (r: Option<Vec<u8>>)
    ensures
        r matches Some(v) ==> b64_decode_of(text@) == Some(v@),
        r is None ==> b64_decode_of(text@) is None,
{
    match base64::decode(text) {
        Ok(v) => Some(v),
        Err(_) => None,
    }
}

/// The base64 text of this public key's binary export; decoding the text
/// gives bytes that import back to exactly this key.
pub fn public_key_to_base64(k: &PublicKey, ps: &ParameterSet) -> (r: String)
    requires
        params_wf(*ps),
        public_key_wf(*k, *ps),
    ensures
        b64_decode_of(r@) matches Some(bytes) && import_q_spec(bytes, *ps) == Some(k.h@),
{
    let bytes = k.export(ps);
    b64_encode(&bytes)
}

/// Decode a base64 text into a public key: the text must be valid base64
/// and the decoded bytes must pass the binary import, length check
/// included.
pub fn public_key_from_base64(text: &str, ps: &ParameterSet) -> (r: Result<PublicKey, CodecError>)
    requires
        params_wf(*ps),
    ensures
        b64_decode_of(text@) is None ==> r == Err::<PublicKey, CodecError>(
            CodecError::InvalidEncoding,
        ),
        b64_decode_of(text@) matches Some(bytes) ==> import_q_spec(bytes, *ps) matches Some(h)
            ==> (r matches Ok(k) && k.h@ == h && public_key_wf(k, *ps)),
        b64_decode_of(text@) matches Some(bytes) ==> bytes.len() != spec_public_len(*ps) ==> r
            == Err::<PublicKey, CodecError>(CodecError::LengthMismatch),
        b64_decode_of(text@) matches Some(bytes) ==> (bytes.len() == spec_public_len(*ps)
            && import_q_spec(bytes, *ps) is None) ==> r == Err::<PublicKey, CodecError>(
            CodecError::InvalidEncoding,
        ),
{
    match b64_decode(text) {
        None => Err(CodecError::InvalidEncoding),
        Some(bytes) => PublicKey::import(&bytes, ps),
    }
}

/// The base64 text of this private key's binary export; decoding the
/// text gives bytes that import back to exactly this key.
pub fn private_key_to_base64(k: &PrivateKey, ps: &ParameterSet) -> (r: String)
    requires
        params_wf(*ps),
        private_key_wf(*k, *ps),
    ensures
        b64_decode_of(r@) matches Some(bytes) && import_trits_spec(bytes, *ps) == Some(k.f@),
{
    let bytes = k.export(ps);
    b64_encode(&bytes)
}

/// Decode a base64 text into a private key: the text must be valid
/// base64 and the decoded bytes must pass the binary import, length
/// check and key-invariant check included.
pub fn private_key_from_base64(text: &str, ps: &ParameterSet) -> (r: Result<
    PrivateKey,
    CodecError,
>)
    requires
        params_wf(*ps),
    ensures
        b64_decode_of(text@) is None ==> r == Err::<PrivateKey, CodecError>(
            CodecError::InvalidEncoding,
        ),
        b64_decode_of(text@) matches Some(bytes) ==> import_trits_spec(bytes, *ps) matches Some(
            f,
        ) ==> ((r matches Ok(k) && k.f@ == f && private_key_wf(k, *ps)) || r == Err::<
            PrivateKey,
            CodecError,
        >(CodecError::InvalidEncoding)),
        b64_decode_of(text@) matches Some(bytes) ==> bytes.len() != spec_private_len(*ps) ==> r
            == Err::<PrivateKey, CodecError>(CodecError::LengthMismatch),
        b64_decode_of(text@) matches Some(bytes) ==> (bytes.len() == spec_private_len(*ps)
            && import_trits_spec(bytes, *ps) is None) ==> r == Err::<PrivateKey, CodecError>(
            CodecError::InvalidEncoding,
        ),
        r matches Ok(k) ==> private_key_wf(k, *ps),
{
    match b64_decode(text) {
        None => Err(CodecError::InvalidEncoding),
        Some(bytes) => PrivateKey::import(&bytes, ps),
    }
}

} // verus!
