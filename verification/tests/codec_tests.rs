use ntru_core::engine::generate_key_pair;
use ntru_core::errors::CodecError;
use ntru_core::keys::{Ciphertext, PrivateKey, PublicKey};
use ntru_core::msg::{decode_message, encode_message};
use ntru_core::params::default_params_256;
use ntru_core::rng::init;

#[test]
fn public_key_export_import_roundtrip() {
    let ps = default_params_256();
    let rng = init().expect("rng");
    let kp = generate_key_pair(&ps, &rng).expect("keygen");
    let bytes = kp.get_public().export(&ps);
    assert_eq!(bytes.len(), ps.public_len());
    let back = PublicKey::import(&bytes, &ps).expect("import");
    assert_eq!(back.export(&ps), bytes);
    assert_eq!(back.h.coeffs, kp.get_public().h.coeffs);
}

#[test]
fn private_key_export_import_roundtrip() {
    let ps = default_params_256();
    let rng = init().expect("rng");
    let kp = generate_key_pair(&ps, &rng).expect("keygen");
    let bytes = kp.get_private().export(&ps);
    assert_eq!(bytes.len(), ps.private_len());
    let back = PrivateKey::import(&bytes, &ps).expect("import");
    assert_eq!(back.export(&ps), bytes);
    assert_eq!(back.f.coeffs, kp.get_private().f.coeffs);
}

#[test]
fn public_key_import_wrong_length() {
    let ps = default_params_256();
    for len in [0usize, 1, 1021, 1023, 2048] {
        let buf = vec![0u8; len];
        match PublicKey::import(&buf, &ps) {
            Err(CodecError::LengthMismatch) => {}
            _ => panic!("expected LengthMismatch for length {}", len),
        }
    }
}

#[test]
fn private_key_import_wrong_length() {
    let ps = default_params_256();
    for len in [0usize, 1, 185, 187, 400] {
        let buf = vec![0u8; len];
        match PrivateKey::import(&buf, &ps) {
            Err(CodecError::LengthMismatch) => {}
            _ => panic!("expected LengthMismatch for length {}", len),
        }
    }
}

#[test]
fn ciphertext_import_wrong_length() {
    let ps = default_params_256();
    for len in [0usize, 1, 1021, 1023] {
        let buf = vec![0u8; len];
        match Ciphertext::import(&buf, &ps) {
            Err(CodecError::LengthMismatch) => {}
            _ => panic!("expected LengthMismatch for length {}", len),
        }
    }
}

#[test]
fn public_key_import_rejects_trailing_bits() {
    let ps = default_params_256();
    let rng = init().expect("rng");
    let kp = generate_key_pair(&ps, &rng).expect("keygen");
    let mut bytes = kp.get_public().export(&ps);
    // 743 * 11 = 8173 used bits; bits 8173..8176 of the 1022-byte buffer
    // must be zero, so setting the top bit of the last byte must fail
    let last = bytes.len() - 1;
    bytes[last] |= 0x80;
    match PublicKey::import(&bytes, &ps) {
        Err(CodecError::InvalidEncoding) => {}
        _ => panic!("expected InvalidEncoding for trailing bit"),
    }
}

#[test]
fn private_key_import_rejects_non_trit_code() {
    let ps = default_params_256();
    // the 2-bit code 11 is not a trit
    let mut buf = vec![0u8; ps.private_len()];
    buf[0] = 0b11;
    match PrivateKey::import(&buf, &ps) {
        Err(CodecError::InvalidEncoding) => {}
        _ => panic!("expected InvalidEncoding for code 11"),
    }
}

#[test]
fn message_codec_roundtrip() {
    let ps = default_params_256();
    let pad = vec![0u16; ps.get_db()];
    for msg in [vec![], vec![0x00], vec![0x41, 0x42, 0x43], vec![0xFF; 64]] {
        let encoded = encode_message(&msg, &pad, &ps);
        let decoded = decode_message(&encoded, &ps).expect("decode");
        assert_eq!(decoded, msg);
    }
}

#[test]
fn message_codec_roundtrip_mixed_padding() {
    let ps = default_params_256();
    let mut pad = vec![0u16; ps.get_db()];
    for (i, p) in pad.iter_mut().enumerate() {
        *p = (i % 2) as u16;
    }
    let msg = vec![1, 2, 3, 254, 255];
    let encoded = encode_message(&msg, &pad, &ps);
    assert_eq!(decode_message(&encoded, &ps).expect("decode"), msg);
}
