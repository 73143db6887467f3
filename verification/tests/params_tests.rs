use ntru_core::errors::ParameterError;
use ntru_core::params::{default_params_256, lookup};

#[test]
fn default_set_fields() {
    let ps = default_params_256();
    assert_eq!(ps.get_n(), 743);
    assert_eq!(ps.get_q(), 2048);
    assert_eq!(ps.get_p(), 3);
    assert_eq!(ps.get_db(), 128);
    assert_eq!(ps.max_msg_len(), 64);
    assert_eq!(ps.get_name(), "std-256");
}

#[test]
fn derived_lengths() {
    let ps = default_params_256();
    // 743 coefficients of 11 bits each: 8173 bits -> 1022 bytes
    assert_eq!(ps.public_len(), 1022);
    assert_eq!(ps.enc_len(), 1022);
    // 743 trinary coefficients of 2 bits each: 1486 bits -> 186 bytes
    assert_eq!(ps.private_len(), 186);
}

#[test]
fn lookup_known_name() {
    let ps = lookup("std-256").expect("registered set");
    assert_eq!(ps.get_n(), 743);
    assert_eq!(ps, default_params_256());
}

#[test]
fn lookup_unknown_name() {
    assert_eq!(lookup("no-such-set"), Err(ParameterError::UnknownParameterSet));
    assert_eq!(lookup(""), Err(ParameterError::UnknownParameterSet));
    assert_eq!(lookup("std-257"), Err(ParameterError::UnknownParameterSet));
}
