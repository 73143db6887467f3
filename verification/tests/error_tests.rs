use ntru_core::engine::{decrypt, encrypt, generate_key_pair};
use ntru_core::errors::{CodecError, DecryptError};
use ntru_core::keys::PrivateKey;
use ntru_core::msg::{decode_message, encode_message};
use ntru_core::params::default_params_256;
use ntru_core::poly::Poly;
use ntru_core::rng::init;

#[test]
fn import_rejects_non_invertible_private_key() {
    let ps = default_params_256();
    // the zero polynomial is a well-formed encoding but has no inverse,
    // so the key invariant rejects it at import
    match PrivateKey::import(&vec![0u8; ps.private_len()], &ps) {
        Err(CodecError::InvalidEncoding) => {}
        other => panic!("expected InvalidEncoding, got ok={}", other.is_ok()),
    }
}

#[test]
fn decrypt_is_deterministic() {
    let ps = default_params_256();
    let rng = init().expect("rng");
    let kp = generate_key_pair(&ps, &rng).expect("keygen");
    let msg = vec![3u8, 1, 4, 1, 5];
    let ct = encrypt(&msg, kp.get_public(), &ps, &rng).expect("encrypt");
    let first = decrypt(&ct, &kp, &ps).expect("decrypt");
    let second = decrypt(&ct, &kp, &ps).expect("decrypt");
    assert_eq!(first, second);
    assert_eq!(first, msg);
}

#[test]
fn oversized_decoded_length_is_a_decoding_error() {
    let ps = default_params_256();
    let pad = vec![0u16; ps.get_db()];
    let mut poly: Poly = encode_message(&vec![], &pad, &ps);
    // spell 65 (one above max_msg_len) into the length byte: bits 0 and 6
    poly.coeffs[0] = 1;
    poly.coeffs[6] = 1;
    match decode_message(&poly, &ps) {
        Err(DecryptError::DecodingError) => {}
        other => panic!("expected DecodingError, got ok={}", other.is_ok()),
    }
}

#[test]
fn corrupted_marker_is_an_integrity_failure() {
    let ps = default_params_256();
    let pad = vec![0u16; ps.get_db()];
    let mut poly: Poly = encode_message(&vec![7u8, 8, 9], &pad, &ps);
    // the marker occupies the top coefficients; damage one
    let last = poly.coeffs.len() - 1;
    poly.coeffs[last] = 0;
    match decode_message(&poly, &ps) {
        Err(DecryptError::IntegrityCheckFailed) => {}
        other => panic!("expected IntegrityCheckFailed, got ok={}", other.is_ok()),
    }
}

#[test]
fn stray_message_bit_past_length_is_an_integrity_failure() {
    let ps = default_params_256();
    let pad = vec![0u16; ps.get_db()];
    let mut poly: Poly = encode_message(&vec![7u8], &pad, &ps);
    // a nonzero bit in the message region beyond the encoded length
    poly.coeffs[8 + 8 * 2] = 1;
    match decode_message(&poly, &ps) {
        Err(DecryptError::IntegrityCheckFailed) => {}
        other => panic!("expected IntegrityCheckFailed, got ok={}", other.is_ok()),
    }
}
