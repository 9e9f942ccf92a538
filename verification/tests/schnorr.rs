use curve25519_dalek::scalar::Scalar;
use zk_toolkit::pedersen::{create_commitment, setup, verify_commitment};
use zk_toolkit::schnorr::{
    schnorr_extract, schnorr_phase1, schnorr_phase1_relation, schnorr_phase2,
    schnorr_phase2_relation, schnorr_phase3, schnorr_phase3_relation, schnorr_verify,
    schnorr_verify_relation, ScaleRelation,
};

#[test]
fn honest_run_verifies() {
    let mut rng = rand::thread_rng();
    let (g, h) = setup(&mut rng);
    let secret = Scalar::from(42u32);
    let (commitment, opening) = create_commitment(&secret, &g, &h, &mut rng);
    let (proof_base, a1, a2) = schnorr_phase1(&g, &h, &mut rng);
    let (proof_base, challenge) = schnorr_phase2(proof_base, &mut rng);
    let signature = schnorr_phase3(a1, a2, &challenge, &opening.0, &opening.1);
    assert!(schnorr_verify(&g, &h, &challenge, &commitment, &signature, proof_base));
}

#[test]
fn wrong_witness_fails() {
    let mut rng = rand::thread_rng();
    let (g, h) = setup(&mut rng);
    let secret = Scalar::from(42u32);
    let (commitment, opening) = create_commitment(&secret, &g, &h, &mut rng);
    let (proof_base, a1, a2) = schnorr_phase1(&g, &h, &mut rng);
    let (proof_base, challenge) = schnorr_phase2(proof_base, &mut rng);
    // The prover answers for a different secret than the committed one.
    let wrong = Scalar::from(43u32);
    let signature = schnorr_phase3(a1, a2, &challenge, &wrong, &opening.1);
    assert!(!schnorr_verify(&g, &h, &challenge, &commitment, &signature, proof_base));
}

#[test]
fn two_transcripts_extract_the_secret() {
    let mut rng = rand::thread_rng();
    let (g, h) = setup(&mut rng);
    let secret = Scalar::from(21u32);
    let (commitment, opening) = create_commitment(&secret, &g, &h, &mut rng);
    // One proof base, two distinct challenges, two accepting transcripts.
    let (proof_base, a1, a2) = schnorr_phase1(&g, &h, &mut rng);
    let c1 = Scalar::from(7u32);
    let c2 = Scalar::from(11u32);
    let first = schnorr_phase3(a1, a2, &c1, &opening.0, &opening.1);
    let second = schnorr_phase3(a1, a2, &c2, &opening.0, &opening.1);
    assert!(schnorr_verify(&g, &h, &c1, &commitment, &first, proof_base));
    assert!(schnorr_verify(&g, &h, &c2, &commitment, &second, proof_base));
    let recovered = schnorr_extract(&c1, &c2, &first.0, &second.0).unwrap();
    assert_eq!(recovered, secret);
    // The blinding factor is recovered from the second components the same
    // way.
    let recovered_blinding = schnorr_extract(&c1, &c2, &first.1, &second.1).unwrap();
    assert_eq!(recovered_blinding, opening.1);
}

#[test]
fn equal_challenges_extract_nothing() {
    let c = Scalar::from(7u32);
    let s1 = Scalar::from(100u32);
    let s2 = Scalar::from(200u32);
    assert!(schnorr_extract(&c, &c, &s1, &s2).is_none());
}

#[test]
fn relation_proof_verifies() {
    let mut rng = rand::thread_rng();
    let (g, h) = setup(&mut rng);
    let x1 = Scalar::from(21u32);
    let x2 = Scalar::from(84u32);
    let (c1, opening1) = create_commitment(&x1, &g, &h, &mut rng);
    let (c2, opening2) = create_commitment(&x2, &g, &h, &mut rng);
    let relation = ScaleRelation { factor: Scalar::from(4u32) };
    let (base1, base2, a1, r1, a2, r2) = schnorr_phase1_relation(&g, &h, &relation, &mut rng);
    let (base1, base2, challenge) = schnorr_phase2_relation(base1, base2, &mut rng);
    let (s1, s2) = schnorr_phase3_relation(a1, r1, a2, r2, &challenge, &opening1, &opening2);
    assert!(schnorr_verify_relation(
        &g, &h, &challenge, &c1, &c2, &s1, &s2, base1, base2, &relation
    ));
}

#[test]
fn violated_relation_fails_even_though_commitments_open() {
    let mut rng = rand::thread_rng();
    let (g, h) = setup(&mut rng);
    let x1 = Scalar::from(21u32);
    let x2 = Scalar::from(85u32);
    let (c1, opening1) = create_commitment(&x1, &g, &h, &mut rng);
    let (c2, opening2) = create_commitment(&x2, &g, &h, &mut rng);
    assert!(verify_commitment(&c1, &opening1));
    assert!(verify_commitment(&c2, &opening2));
    let relation = ScaleRelation { factor: Scalar::from(4u32) };
    let (base1, base2, a1, r1, a2, r2) = schnorr_phase1_relation(&g, &h, &relation, &mut rng);
    let (base1, base2, challenge) = schnorr_phase2_relation(base1, base2, &mut rng);
    let (s1, s2) = schnorr_phase3_relation(a1, r1, a2, r2, &challenge, &opening1, &opening2);
    assert!(!schnorr_verify_relation(
        &g, &h, &challenge, &c1, &c2, &s1, &s2, base1, base2, &relation
    ));
}
