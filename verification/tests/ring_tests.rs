use ntru_core::inverse::{invert, invert_pow2, invert_prime};
use ntru_core::poly::{poly_add, poly_center_mod3, poly_lift_trits, poly_mult, Poly};

fn poly_of(coeffs: Vec<u16>) -> Poly {
    Poly { coeffs }
}

fn is_unit(p: &Poly) -> bool {
    p.coeffs[0] == 1 && p.coeffs[1..].iter().all(|&c| c == 0)
}

#[test]
fn add_small_ring() {
    let a = poly_of(vec![1, 2, 0, 1, 2]);
    let b = poly_of(vec![2, 2, 1, 0, 1]);
    let r = poly_add(&a, &b, 3, 5);
    assert_eq!(r.coeffs, vec![0, 1, 1, 1, 0]);
}

#[test]
fn mult_by_x_rotates() {
    // multiplying by x rotates the coefficients cyclically upward
    let a = poly_of(vec![5, 6, 7, 0, 0]);
    let x = poly_of(vec![0, 1, 0, 0, 0]);
    let r = poly_mult(&a, &x, 2048, 5);
    assert_eq!(r.coeffs, vec![0, 5, 6, 7, 0]);
}

#[test]
fn mult_wraps_cyclically() {
    // x^4 * x = x^5 = 1 in the ring of degree 5
    let a = poly_of(vec![0, 0, 0, 0, 1]);
    let x = poly_of(vec![0, 1, 0, 0, 0]);
    let r = poly_mult(&a, &x, 2048, 5);
    assert_eq!(r.coeffs, vec![1, 0, 0, 0, 0]);
}

#[test]
fn invert_unit_poly() {
    let one = poly_of(vec![1, 0, 0, 0, 0, 0, 0]);
    let inv = invert_prime(&one, 3, 7).expect("1 is invertible");
    let prod = poly_mult(&one, &inv, 3, 7);
    assert!(is_unit(&prod));
}

#[test]
fn invert_x_mod3() {
    // the inverse of x is x^(n-1)
    let x = poly_of(vec![0, 1, 0, 0, 0, 0, 0]);
    let inv = invert_prime(&x, 3, 7).expect("x is invertible");
    let prod = poly_mult(&x, &inv, 3, 7);
    assert!(is_unit(&prod));
    assert_eq!(inv.coeffs, vec![0, 0, 0, 0, 0, 0, 1]);
}

#[test]
fn invert_dense_poly_mod3() {
    // f = 1 + x - x^2 with n = 7 (trinary form: -1 is 2)
    let f = poly_of(vec![1, 1, 2, 0, 0, 0, 0]);
    let inv = invert_prime(&f, 3, 7).expect("1 + x - x^2 is invertible mod 3");
    let prod = poly_mult(&f, &inv, 3, 7);
    assert!(is_unit(&prod));
}

#[test]
fn invert_zero_fails() {
    let z = poly_of(vec![0, 0, 0, 0, 0, 0, 0]);
    assert!(invert_prime(&z, 3, 7).is_none());
    assert!(invert_prime(&z, 2, 7).is_none());
}

#[test]
fn invert_all_ones_fails_mod3() {
    // 1 + x + ... + x^6 divides x^7 - 1, so it cannot be invertible
    let f = poly_of(vec![1, 1, 1, 1, 1, 1, 1]);
    assert!(invert_prime(&f, 3, 7).is_none());
}

#[test]
fn invert_mod_q_small() {
    // f = 1 + x - x^2 lifted mod q = 2048
    let f3 = poly_of(vec![1, 1, 2, 0, 0, 0, 0]);
    let fq = poly_lift_trits(&f3, 2048, 7);
    assert_eq!(fq.coeffs, vec![1, 1, 2047, 0, 0, 0, 0]);
    let inv = invert_pow2(&fq, 2048, 11, 7).expect("1 + x - x^2 is invertible mod q");
    let prod = poly_mult(&fq, &inv, 2048, 7);
    assert!(is_unit(&prod));
}

#[test]
fn invert_dispatches_on_modulus() {
    let x = poly_of(vec![0, 1, 0, 0, 0, 0, 0]);
    let inv3 = invert(&x, 3, 7).expect("invertible mod 3");
    assert!(is_unit(&poly_mult(&x, &inv3, 3, 7)));
    let xq = poly_of(vec![0, 1, 0, 0, 0, 0, 0]);
    let invq = invert(&xq, 2048, 7).expect("invertible mod q");
    assert!(is_unit(&poly_mult(&xq, &invq, 2048, 7)));
}

#[test]
fn center_mod3_maps_negatives() {
    // 2047 mod 2048 is -1, so centered and reduced mod 3 it is 2
    let a = poly_of(vec![0, 1, 2047, 1024, 1025]);
    let r = poly_center_mod3(&a, 2048, 5);
    // 1024 = q/2 stays positive: 1024 % 3 = 1; 1025 is -1023: -1023 % 3 = 0
    assert_eq!(r.coeffs, vec![0, 1, 2, 1, 0]);
}
