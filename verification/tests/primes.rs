use num_bigint_dig::BigUint;
use zk_toolkit::primes::{
    generate_prime_of_bit_length, generate_safe_prime, is_prime, is_safe_prime, miller_rabin,
    PrimeError,
};

#[test]
fn known_primes_pass() {
    let mut rng = rand::thread_rng();
    for p in [2u64, 3, 5, 7, 11, 13, 65537, 104729, 2147483647] {
        let n = BigUint::from(p);
        assert!(is_prime(&n, 40, &mut rng), "{} should be prime", p);
    }
}

#[test]
fn known_composites_fail() {
    let mut rng = rand::thread_rng();
    for c in [0u64, 1, 4, 6, 9, 15, 21, 561, 1000000] {
        let n = BigUint::from(c);
        assert!(!is_prime(&n, 40, &mut rng), "{} should be composite", c);
    }
}

#[test]
fn product_of_two_primes_is_composite() {
    let mut rng = rand::thread_rng();
    let p = generate_prime_of_bit_length(12, 40, 100000, &mut rng).unwrap();
    let q = generate_prime_of_bit_length(12, 40, 100000, &mut rng).unwrap();
    let n = &p * &q;
    assert!(!is_prime(&n, 40, &mut rng));
}

#[test]
fn miller_rabin_matches_is_prime_on_edge_values() {
    let mut rng = rand::thread_rng();
    assert!(miller_rabin(&BigUint::from(2u32), 40, &mut rng));
    assert!(miller_rabin(&BigUint::from(3u32), 40, &mut rng));
    assert!(!miller_rabin(&BigUint::from(0u32), 40, &mut rng));
    assert!(!miller_rabin(&BigUint::from(1u32), 40, &mut rng));
    assert!(!miller_rabin(&BigUint::from(4u32), 40, &mut rng));
}

#[test]
fn safe_primes_recognised() {
    let mut rng = rand::thread_rng();
    // 5, 7, 11, 23, 47 are safe primes: (p - 1) / 2 is prime too.
    for p in [5u64, 7, 11, 23, 47, 59, 83] {
        let n = BigUint::from(p);
        assert!(is_safe_prime(&n, 40, &mut rng), "{} should be a safe prime", p);
    }
    // 13 is prime but (13 - 1) / 2 == 6 is not; small values are rejected.
    for p in [0u64, 1, 2, 3, 4, 13, 17, 15] {
        let n = BigUint::from(p);
        assert!(!is_safe_prime(&n, 40, &mut rng), "{} should not be a safe prime", p);
    }
}

#[test]
fn generated_safe_prime_is_safe_and_sized() {
    let mut rng = rand::thread_rng();
    let p = generate_safe_prime(16, 10, 400000, &mut rng).unwrap();
    assert!(is_safe_prime(&p, 40, &mut rng));
    assert_eq!(p.bits(), 16);
    assert!(p >= BigUint::from(5u32));
}

#[test]
fn generated_prime_is_prime_and_sized() {
    let mut rng = rand::thread_rng();
    let p = generate_prime_of_bit_length(16, 10, 200000, &mut rng).unwrap();
    assert!(is_prime(&p, 40, &mut rng));
    assert_eq!(p.bits(), 16);
}

#[test]
fn exhausted_search_reports_error() {
    let mut rng = rand::thread_rng();
    assert_eq!(
        generate_safe_prime(16, 10, 0, &mut rng),
        Err(PrimeError::PrimeSearchExhausted)
    );
    assert_eq!(
        generate_prime_of_bit_length(16, 10, 0, &mut rng),
        Err(PrimeError::PrimeSearchExhausted)
    );
}
