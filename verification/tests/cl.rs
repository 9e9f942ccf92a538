use num_bigint_dig::BigUint;
use zk_toolkit::cl::{choose_exponent, reveal_subset, setup, sign, verify_full, verify_selective,
    CLError};

#[test]
fn sign_then_verify_full() {
    let mut rng = rand::thread_rng();
    let (modulus, params, s) = setup(10, 10, 400000, &mut rng).unwrap();
    let phi = modulus.phi();
    let (e, _inv) = choose_exponent(16, &phi, 10, 10000, &mut rng).unwrap();
    let m1 = BigUint::from(1234u32);
    let m2 = BigUint::from(5678u32);
    let sig = sign(&m1, &m2, &params, &s, &e, &phi).unwrap();
    assert!(verify_full(&sig, &m1, &m2, &params));
}

#[test]
fn tampered_signature_fails() {
    let mut rng = rand::thread_rng();
    let (modulus, params, s) = setup(10, 10, 400000, &mut rng).unwrap();
    let phi = modulus.phi();
    let (e, _inv) = choose_exponent(16, &phi, 10, 10000, &mut rng).unwrap();
    let m1 = BigUint::from(1234u32);
    let m2 = BigUint::from(5678u32);
    let sig = sign(&m1, &m2, &params, &s, &e, &phi).unwrap();
    let one = BigUint::from(1u32);

    let mut tampered_v = sign(&m1, &m2, &params, &s, &e, &phi).unwrap();
    tampered_v.v = &sig.v + &one;
    assert!(!verify_full(&tampered_v, &m1, &m2, &params));

    let mut tampered_s = sign(&m1, &m2, &params, &s, &e, &phi).unwrap();
    tampered_s.s = &sig.s + &one;
    assert!(!verify_full(&tampered_s, &m1, &m2, &params));

    let mut tampered_e = sign(&m1, &m2, &params, &s, &e, &phi).unwrap();
    tampered_e.e = &sig.e + &one;
    assert!(!verify_full(&tampered_e, &m1, &m2, &params));
}

#[test]
fn chosen_exponent_is_invertible() {
    let mut rng = rand::thread_rng();
    let (modulus, _params, _s) = setup(10, 10, 400000, &mut rng).unwrap();
    let phi = modulus.phi();
    let (e, inv) = choose_exponent(16, &phi, 10, 10000, &mut rng).unwrap();
    assert_eq!(e.bits(), 18);
    assert_eq!((&e * &inv) % &phi, BigUint::from(1u32));
}

#[test]
fn even_exponent_is_not_invertible() {
    let mut rng = rand::thread_rng();
    let (modulus, params, s) = setup(10, 10, 400000, &mut rng).unwrap();
    let phi = modulus.phi();
    // phi = (p - 1) * (q - 1) is even, so an even exponent shares a factor
    // with it and has no inverse.
    let e = BigUint::from(2u32);
    let m1 = BigUint::from(1u32);
    let m2 = BigUint::from(2u32);
    assert!(matches!(
        sign(&m1, &m2, &params, &s, &e, &phi),
        Err(CLError::NotInvertible)
    ));
}

#[test]
fn selective_disclosure_hides_one_message() {
    let mut rng = rand::thread_rng();
    let (modulus, params, s) = setup(10, 10, 400000, &mut rng).unwrap();
    let phi = modulus.phi();
    let (e, _inv) = choose_exponent(16, &phi, 10, 10000, &mut rng).unwrap();
    // The origin and the vintage of the wine, encoded as integers.
    let m1 = BigUint::from_bytes_be("Bordeaux".as_bytes());
    let m2 = BigUint::from_bytes_be("1980".as_bytes());
    let sig = sign(&m1, &m2, &params, &s, &e, &phi).unwrap();
    assert!(verify_full(&sig, &m1, &m2, &params));

    // Hide the vintage, disclose the origin: the verifier sees only the
    // redacted commitment, the offset, and m1.
    let offset = BigUint::from(45u32);
    let (c_hidden, s_prime) = reveal_subset(&sig, &params, &m2, &offset);
    assert_eq!(s_prime, offset);
    assert!(verify_selective(&c_hidden, &m1, &s_prime, &sig.e, &sig.v, &params));

    // A different claimed origin does not pass.
    let wrong_m1 = BigUint::from_bytes_be("Burgundy".as_bytes());
    assert!(!verify_selective(&c_hidden, &wrong_m1, &s_prime, &sig.e, &sig.v, &params));
}

#[test]
fn setup_reports_exhaustion() {
    let mut rng = rand::thread_rng();
    assert!(matches!(
        setup(10, 10, 0, &mut rng),
        Err(CLError::PrimeSearchExhausted)
    ));
}
