use curve25519_dalek::scalar::Scalar;
use zk_toolkit::pedersen::{
    create_commitment, same_commitment, setup, verify_commitment, Commitment, CommitmentError,
};

#[test]
fn commitment_opens_with_its_opening() {
    let mut rng = rand::thread_rng();
    let (g, h) = setup(&mut rng);
    let secret = Scalar::from(42u32);
    let (commitment, opening) = create_commitment(&secret, &g, &h, &mut rng);
    assert!(verify_commitment(&commitment, &opening));
}

#[test]
fn tampered_opening_fails() {
    let mut rng = rand::thread_rng();
    let (g, h) = setup(&mut rng);
    let secret = Scalar::from(42u32);
    let (commitment, opening) = create_commitment(&secret, &g, &h, &mut rng);
    let wrong_secret = (opening.0 + Scalar::from(1u32), opening.1);
    assert!(!verify_commitment(&commitment, &wrong_secret));
    let wrong_blinding = (opening.0, opening.1 + Scalar::from(1u32));
    assert!(!verify_commitment(&commitment, &wrong_blinding));
}

#[test]
fn same_secret_detected_from_blinding_delta() {
    let mut rng = rand::thread_rng();
    let (g, h) = setup(&mut rng);
    let secret = Scalar::from(3u32);
    let (c1, o1) = create_commitment(&secret, &g, &h, &mut rng);
    let (c2, o2) = create_commitment(&secret, &g, &h, &mut rng);
    let delta = o1.1 - o2.1;
    assert_eq!(same_commitment(&c1, &c2, &delta), Ok(true));
}

#[test]
fn different_secrets_not_equated() {
    let mut rng = rand::thread_rng();
    let (g, h) = setup(&mut rng);
    let (c1, o1) = create_commitment(&Scalar::from(3u32), &g, &h, &mut rng);
    let (c2, o2) = create_commitment(&Scalar::from(4u32), &g, &h, &mut rng);
    let delta = o1.1 - o2.1;
    assert_eq!(same_commitment(&c1, &c2, &delta), Ok(false));
}

#[test]
fn generator_mismatch_is_an_error() {
    let mut rng = rand::thread_rng();
    let (g, h) = setup(&mut rng);
    let (g2, _) = setup(&mut rng);
    let (c1, o1) = create_commitment(&Scalar::from(3u32), &g, &h, &mut rng);
    let (c2_raw, o2) = create_commitment(&Scalar::from(3u32), &g2, &h, &mut rng);
    let c2 = Commitment {
        commitment: c2_raw.commitment,
        g: g2,
        h,
    };
    let delta = o1.1 - o2.1;
    assert_eq!(
        same_commitment(&c1, &c2, &delta),
        Err(CommitmentError::GeneratorMismatch)
    );
}
