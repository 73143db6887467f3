use ntru_core::engine::{encrypt, decrypt, generate_key_pair, generate_public};
use ntru_core::errors::{CodecError, EncryptError};
use ntru_core::inverse::{invert_pow2, invert_prime};
use ntru_core::keys::{Ciphertext, KeyPair};
use ntru_core::params::default_params_256;
use ntru_core::poly::poly_lift_trits;
use ntru_core::rng::init;
use ntru_core::text::{
    private_key_from_base64, private_key_to_base64, public_key_from_base64, public_key_to_base64,
};

#[test]
fn encrypt_decrypt_abc() {
    let ps = default_params_256();
    let rng = init().expect("rng");
    let kp = generate_key_pair(&ps, &rng).expect("keygen");
    let plaintext = vec![0x41u8, 0x42, 0x43];
    let ct = encrypt(&plaintext, kp.get_public(), &ps, &rng).expect("encrypt");
    let back = decrypt(&ct, &kp, &ps).expect("decrypt");
    assert_eq!(back, vec![0x41, 0x42, 0x43]);
}

#[test]
fn encrypt_decrypt_various_lengths() {
    let ps = default_params_256();
    let rng = init().expect("rng");
    let kp = generate_key_pair(&ps, &rng).expect("keygen");
    for msg in [vec![], vec![0u8], vec![0xFFu8; 64], (0u8..=63).collect::<Vec<u8>>()] {
        let ct = encrypt(&msg, kp.get_public(), &ps, &rng).expect("encrypt");
        let back = decrypt(&ct, &kp, &ps).expect("decrypt");
        assert_eq!(back, msg);
    }
}

#[test]
fn message_too_long_rejected() {
    let ps = default_params_256();
    let rng = init().expect("rng");
    let kp = generate_key_pair(&ps, &rng).expect("keygen");
    let long = vec![0x55u8; ps.max_msg_len() + 1];
    match encrypt(&long, kp.get_public(), &ps, &rng) {
        Err(EncryptError::MessageTooLong) => {}
        Ok(_) => panic!("a ciphertext was produced for an oversized message"),
        Err(e) => panic!("unexpected error {:?}", e),
    }
}

#[test]
fn wrong_key_rejected() {
    let ps = default_params_256();
    let rng = init().expect("rng");
    let kp1 = generate_key_pair(&ps, &rng).expect("keygen");
    let kp2 = generate_key_pair(&ps, &rng).expect("keygen");
    let plaintext = vec![0xDEu8, 0xAD, 0xBE, 0xEF];
    let ct = encrypt(&plaintext, kp1.get_public(), &ps, &rng).expect("encrypt");
    // pair the wrong private key with the right public key
    let wrong = KeyPair::new(kp2.get_private().duplicate(), kp1.get_public().duplicate());
    match decrypt(&ct, &wrong, &ps) {
        Err(_) => {}
        Ok(v) => assert_ne!(v, plaintext, "wrong key silently returned the plaintext"),
    }
}

#[test]
fn flipped_ciphertext_bit_never_silently_decrypts() {
    let ps = default_params_256();
    let rng = init().expect("rng");
    let kp = generate_key_pair(&ps, &rng).expect("keygen");
    let plaintext = vec![0x10u8, 0x20, 0x30, 0x40, 0x50];
    let ct = encrypt(&plaintext, kp.get_public(), &ps, &rng).expect("encrypt");
    let good_bytes = ct.export(&ps);
    for bit in [0usize, 7, 100, 4000, 8172] {
        let mut bytes = good_bytes.clone();
        bytes[bit / 8] ^= 1 << (bit % 8);
        match Ciphertext::import(&bytes, &ps) {
            Err(_) => {}
            Ok(tampered) => match decrypt(&tampered, &kp, &ps) {
                Err(_) => {}
                Ok(v) => {
                    assert_ne!(v, plaintext, "tampered ciphertext reproduced the plaintext");
                }
            },
        }
    }
    // a flipped trailing padding bit must be rejected at import
    let mut bytes = good_bytes.clone();
    bytes[1021] ^= 0x40;
    match Ciphertext::import(&bytes, &ps) {
        Err(CodecError::InvalidEncoding) => {}
        _ => panic!("trailing-bit tampering must fail import"),
    }
}

#[test]
fn generated_private_key_is_invertible() {
    let ps = default_params_256();
    let rng = init().expect("rng");
    let kp = generate_key_pair(&ps, &rng).expect("keygen");
    let f = &kp.get_private().f;
    assert!(invert_prime(f, 3, ps.get_n()).is_some());
    let fq = poly_lift_trits(f, ps.get_q(), ps.get_n());
    assert!(invert_pow2(&fq, ps.get_q(), 11, ps.get_n()).is_some());
}

#[test]
fn private_key_has_prescribed_weights() {
    let ps = default_params_256();
    let rng = init().expect("rng");
    let kp = generate_key_pair(&ps, &rng).expect("keygen");
    let f = &kp.get_private().f.coeffs;
    let ones = f.iter().filter(|&&c| c == 1).count();
    let negs = f.iter().filter(|&&c| c == 2).count();
    assert_eq!(ones, 107);
    assert_eq!(negs, 106);
}

#[test]
fn derived_public_key_works() {
    let ps = default_params_256();
    let rng = init().expect("rng");
    let kp = generate_key_pair(&ps, &rng).expect("keygen");
    let derived = generate_public(&ps, kp.get_private(), &rng).expect("derive");
    let pair = KeyPair::new(kp.get_private().duplicate(), derived);
    let msg = vec![9u8, 8, 7];
    let ct = encrypt(&msg, pair.get_public(), &ps, &rng).expect("encrypt");
    assert_eq!(decrypt(&ct, &pair, &ps).expect("decrypt"), msg);
}

#[test]
fn base64_key_text_roundtrip() {
    let ps = default_params_256();
    let rng = init().expect("rng");
    let kp = generate_key_pair(&ps, &rng).expect("keygen");
    let pub_text = public_key_to_base64(kp.get_public(), &ps);
    let pub_back = public_key_from_base64(&pub_text, &ps).expect("decode public");
    assert_eq!(pub_back.export(&ps), kp.get_public().export(&ps));
    let priv_text = private_key_to_base64(kp.get_private(), &ps);
    let priv_back = private_key_from_base64(&priv_text, &ps).expect("decode private");
    assert_eq!(priv_back.export(&ps), kp.get_private().export(&ps));
}

#[test]
fn base64_rejects_bad_text_and_bad_length() {
    let ps = default_params_256();
    match public_key_from_base64("this is !!! not base64", &ps) {
        Err(CodecError::InvalidEncoding) => {}
        _ => panic!("invalid base64 must be rejected"),
    }
    // valid base64, wrong decoded length
    let short = base64::encode(vec![0u8; 10]);
    match public_key_from_base64(&short, &ps) {
        Err(CodecError::LengthMismatch) => {}
        _ => panic!("short decoded buffer must be rejected"),
    }
    match private_key_from_base64(&short, &ps) {
        Err(CodecError::LengthMismatch) => {}
        _ => panic!("short decoded buffer must be rejected"),
    }
}

#[test]
fn rng_draws_requested_lengths() {
    let rng = init().expect("rng");
    assert_eq!(rng.random_bytes(16).expect("draw").len(), 16);
    assert_eq!(rng.random_bytes(0).expect("draw").len(), 0);
    for _ in 0..50 {
        let v = rng.uniform_below(10).expect("uniform");
        assert!(v < 10);
    }
}
