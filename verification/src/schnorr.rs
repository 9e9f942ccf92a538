//! Schnorr three-move proof of knowledge of a Pedersen commitment opening,
//! its witness extractor, and a generalization that additionally proves a
//! public linear relation between two committed secrets.

use vstd::prelude::*;

verus! {

use curve25519_dalek::ristretto::RistrettoPoint;
use curve25519_dalek::scalar::Scalar;
use rand::rngs::ThreadRng;
use crate::modmath::{
    group_order, add_l, mul_l, sub_l, lemma_cong_refl, lemma_cong_sym, lemma_cong_trans,
    lemma_cong_add, lemma_cong_mul, lemma_cong_sub, lemma_cong_unique, lemma_add_l_cong,
    lemma_mul_l_cong, lemma_sub_l_cong,
};
use crate::group::{
    scalar_value, point_value, scalar_from_u32, scalar_random, scalar_sub, scalar_mul,
    scalar_invert, scalar_eq, point_eq, point_add, point_scalar_mul, random_u32,
};
use crate::pedersen::{pedersen_val, Commitment, Opening};

/// The prover's two response scalars.
pub type SchnorrSignature = (Scalar, Scalar);

/// The verifier's acceptance condition, over residues:
/// `s1*g + s2*h + challenge*commitment == proof_base`.
pub open spec fn schnorr_accepts(
    g: nat,
    h: nat,
    challenge: nat,
    commitment: nat,
    s1: nat,
    s2: nat,
    proof_base: nat,
) -> bool {
    add_l(pedersen_val(s1, g, s2, h), mul_l(challenge, commitment)) == proof_base
}

/// A public linear map on scalars, used to couple two proof instances: the
/// prover shows that the second secret is the image of the first.
pub trait Relation {
    /// The map on residues, before reduction modulo the group order.
    spec fn spec_apply(&self, s: nat) -> nat;

    /// Apply the map to a scalar; the result is its reduced image.
    fn apply(&self, s: &Scalar) -> (r: Scalar)
        ensures
            scalar_value(r) == self.spec_apply(scalar_value(*s)) % group_order(),
    ;
}

/// Multiplication by a fixed public factor: the relation `s -> factor * s`.
pub struct ScaleRelation {
    pub factor: Scalar,
}

impl Relation for ScaleRelation {
    open spec fn spec_apply(&self, s: nat) -> nat {
        scalar_value(self.factor) * s
    }

    fn apply(&self, s: &Scalar) -> (r: Scalar) {
        scalar_mul(&self.factor, s)
    }
}

/// Prover, move one: draw two random scalars `a1, a2` and announce the
/// proof base `a1*g + a2*h`.
pub fn schnorr_phase1(g: &RistrettoPoint, h: &RistrettoPoint, rng: &mut ThreadRng) -> (r: (
    RistrettoPoint,
    Scalar,
    Scalar,
))
    ensures
        point_value(r.0) == pedersen_val(
            scalar_value(r.1),
            point_value(*g),
            scalar_value(r.2),
            point_value(*h),
        ),
        scalar_value(r.1) < group_order(),
        scalar_value(r.2) < group_order(),
{
    let a1 = scalar_random(rng);
    let a2 = scalar_random(rng);
    let a1g = point_scalar_mul(&a1, g);
    let a2h = point_scalar_mul(&a2, h);
    (point_add(&a1g, &a2h), a1, a2)
}

/// Verifier, move two: keep the proof base and answer with a random
/// challenge drawn from a 32-bit challenge space.
pub fn schnorr_phase2(proof_base: RistrettoPoint, rng: &mut ThreadRng) -> (r: (
    RistrettoPoint,
    Scalar,
))
    ensures
        r.0 == proof_base,
        scalar_value(r.1) < group_order(),
{
    let challenge = scalar_from_u32(random_u32(rng));
    (proof_base, challenge)
}

/// Prover, move three: answer the challenge with
/// `s1 = a1 - challenge*secret` and `s2 = a2 - challenge*blinding`.
pub fn schnorr_phase3(
    a1: Scalar,
    a2: Scalar,
    challenge: &Scalar,
    secret: &Scalar,
    blinding: &Scalar,
) -> (r: SchnorrSignature)
    ensures
        scalar_value(r.0) == sub_l(
            scalar_value(a1),
            mul_l(scalar_value(*challenge), scalar_value(*secret)),
        ),
        scalar_value(r.1) == sub_l(
            scalar_value(a2),
            mul_l(scalar_value(*challenge), scalar_value(*blinding)),
        ),
{
    let s1 = scalar_sub(&a1, &scalar_mul(challenge, secret));
    let s2 = scalar_sub(&a2, &scalar_mul(challenge, blinding));
    (s1, s2)
}

/// Verifier, final check: accept iff
/// `s1*g + s2*h + challenge*commitment == proof_base`.
pub fn schnorr_verify(
    g: &RistrettoPoint,
    h: &RistrettoPoint,
    challenge: &Scalar,
    commitment: &Commitment,
    signature: &SchnorrSignature,
    proof_base: RistrettoPoint,
) -> (r: bool)
    ensures
        r == schnorr_accepts(
            point_value(*g),
            point_value(*h),
            scalar_value(*challenge),
            commitment.value(),
            scalar_value(signature.0),
            scalar_value(signature.1),
            point_value(proof_base),
        ),
{
    let s1g = point_scalar_mul(&signature.0, g);
    let s2h = point_scalar_mul(&signature.1, h);
    let cc = point_scalar_mul(challenge, &commitment.commitment);
    let recomputed = point_add(&point_add(&s1g, &s2h), &cc);
    point_eq(&recomputed, &proof_base)
}

/// Witness extraction from two accepting transcripts that share a proof
/// base but carry distinct challenges: the returned scalar `x` solves
/// `(challenge2 - challenge1) * x == s_first - s_second` in the scalar
/// field, where `s_first` answered `challenge1` and `s_second` answered
/// `challenge2`.  Returns `None` exactly when the challenges coincide.
pub fn schnorr_extract(
    challenge1: &Scalar,
    challenge2: &Scalar,
    s_first: &Scalar,
    s_second: &Scalar,
) -> (r: Option<Scalar>)
    requires
        scalar_value(*challenge1) < group_order(),
        scalar_value(*challenge2) < group_order(),
    ensures
        r.is_none() == (scalar_value(*challenge1) == scalar_value(*challenge2)),
        r matches Some(x) ==> mul_l(
            sub_l(scalar_value(*challenge2), scalar_value(*challenge1)),
            scalar_value(x),
        ) == sub_l(scalar_value(*s_first), scalar_value(*s_second)),
{
    if scalar_eq(challenge1, challenge2) {
        return None;
    }
    let delta_c = scalar_sub(challenge2, challenge1);
    proof {
        let c1 = scalar_value(*challenge1);
        let c2 = scalar_value(*challenge2);
        if sub_l(c2, c1) == 0 {
            lemma_sub_l_cong(c2, c1);
            // 0 is congruent to c2 - c1, so the two reduced challenges agree.
            lemma_cong_sym(sub_l(c2, c1) as int, c2 - c1);
            lemma_cong_refl(c1 as int);
            lemma_cong_add(c2 - c1, sub_l(c2, c1) as int, c1 as int, c1 as int);
            lemma_cong_unique(c2 as int, c1 as int);
        }
    }
    let inv = scalar_invert(&delta_c);
    let delta_s = scalar_sub(s_first, s_second);
    let extracted = scalar_mul(&delta_s, &inv);
    proof {
        let dc = scalar_value(delta_c);
        let ds = scalar_value(delta_s);
        let iv = scalar_value(inv);
        let lhs = mul_l(dc, mul_l(ds, iv));
        // lhs is congruent to dc * (ds * iv).
        lemma_mul_l_cong(ds, iv);
        lemma_cong_refl(dc as int);
        lemma_cong_mul(dc as int, dc as int, mul_l(ds, iv) as int, (ds * iv) as int);
        lemma_mul_l_cong(dc, mul_l(ds, iv));
        lemma_cong_trans(lhs as int, (dc * mul_l(ds, iv)) as int, (dc * (ds * iv)) as int);
        // ds * (dc * iv) is congruent to ds * mul_l(dc, iv), and the latter
        // is ds itself, since dc * iv reduces to 1.
        lemma_mul_l_cong(dc, iv);
        lemma_cong_refl(ds as int);
        lemma_cong_mul(ds as int, ds as int, mul_l(dc, iv) as int, (dc * iv) as int);
        assert(ds * mul_l(dc, iv) == ds) by (nonlinear_arith)
            requires
                mul_l(dc, iv) == 1,
        ;
        lemma_cong_sym(ds as int, (ds * (dc * iv)) as int);
        // The two products agree up to reordering of the factors.
        assert(dc * (ds * iv) == ds * (dc * iv)) by (nonlinear_arith);
        lemma_cong_trans(lhs as int, (ds * (dc * iv)) as int, ds as int);
        // Both sides are reduced residues.
        lemma_sub_l_cong(scalar_value(*s_first), scalar_value(*s_second));
        lemma_cong_unique(lhs as int, ds as int);
    }
    Some(extracted)
}

/// Prover, move one of the relation variant: draw `a1, r1` at random and
/// derive `a2 = relation(a1)`, `r2 = relation(r1)`, so the second proof base
/// respects the relation by construction.  Returns
/// `(base1, base2, a1, r1, a2, r2)`.
pub fn schnorr_phase1_relation<R: Relation>(
    g: &RistrettoPoint,
    h: &RistrettoPoint,
    relation: &R,
    rng: &mut ThreadRng,
) -> (r: (RistrettoPoint, RistrettoPoint, Scalar, Scalar, Scalar, Scalar))
    ensures
        point_value(r.0) == pedersen_val(
            scalar_value(r.2),
            point_value(*g),
            scalar_value(r.3),
            point_value(*h),
        ),
        point_value(r.1) == pedersen_val(
            scalar_value(r.4),
            point_value(*g),
            scalar_value(r.5),
            point_value(*h),
        ),
        scalar_value(r.4) == relation.spec_apply(scalar_value(r.2)) % group_order(),
        scalar_value(r.5) == relation.spec_apply(scalar_value(r.3)) % group_order(),
        scalar_value(r.2) < group_order(),
        scalar_value(r.3) < group_order(),
{
    let a1 = scalar_random(rng);
    let a2 = relation.apply(&a1);
    let r1 = scalar_random(rng);
    let r2 = relation.apply(&r1);
    let base1 = point_add(&point_scalar_mul(&a1, g), &point_scalar_mul(&r1, h));
    let base2 = point_add(&point_scalar_mul(&a2, g), &point_scalar_mul(&r2, h));
    (base1, base2, a1, r1, a2, r2)
}

/// Verifier, move two of the relation variant: one shared challenge for
/// both proof bases.
pub fn schnorr_phase2_relation(
    proof_base1: RistrettoPoint,
    proof_base2: RistrettoPoint,
    rng: &mut ThreadRng,
) -> (r: (RistrettoPoint, RistrettoPoint, Scalar))
    ensures
        r.0 == proof_base1,
        r.1 == proof_base2,
        scalar_value(r.2) < group_order(),
{
    let challenge = scalar_from_u32(random_u32(rng));
    (proof_base1, proof_base2, challenge)
}

/// Prover, move three of the relation variant: a Schnorr response for each
/// commitment, both under the shared challenge.
pub fn schnorr_phase3_relation(
    a1: Scalar,
    r1: Scalar,
    a2: Scalar,
    r2: Scalar,
    challenge: &Scalar,
    opening1: &Opening,
    opening2: &Opening,
) -> (r: (SchnorrSignature, SchnorrSignature))
    ensures
        scalar_value(r.0.0) == sub_l(
            scalar_value(a1),
            mul_l(scalar_value(*challenge), scalar_value(opening1.0)),
        ),
        scalar_value(r.0.1) == sub_l(
            scalar_value(r1),
            mul_l(scalar_value(*challenge), scalar_value(opening1.1)),
        ),
        scalar_value(r.1.0) == sub_l(
            scalar_value(a2),
            mul_l(scalar_value(*challenge), scalar_value(opening2.0)),
        ),
        scalar_value(r.1.1) == sub_l(
            scalar_value(r2),
            mul_l(scalar_value(*challenge), scalar_value(opening2.1)),
        ),
{
    let sx1 = scalar_sub(&a1, &scalar_mul(challenge, &opening1.0));
    let sr1 = scalar_sub(&r1, &scalar_mul(challenge, &opening1.1));
    let sx2 = scalar_sub(&a2, &scalar_mul(challenge, &opening2.0));
    let sr2 = scalar_sub(&r2, &scalar_mul(challenge, &opening2.1));
    ((sx1, sr1), (sx2, sr2))
}

/// Verifier, final check of the relation variant: each commitment's Schnorr
/// equation must hold, and the first response components must satisfy the
/// relation themselves — for a linear relation, honest responses obey
/// `s2 = relation(s1)`, and that check is what binds the two secrets
/// together; the per-commitment checks alone do not.
pub fn schnorr_verify_relation<R: Relation>(
    g: &RistrettoPoint,
    h: &RistrettoPoint,
    challenge: &Scalar,
    c1: &Commitment,
    c2: &Commitment,
    s1: &SchnorrSignature,
    s2: &SchnorrSignature,
    proof_base1: RistrettoPoint,
    proof_base2: RistrettoPoint,
    relation: &R,
) -> (r: bool)
    ensures
        r == (schnorr_accepts(
            point_value(*g),
            point_value(*h),
            scalar_value(*challenge),
            c1.value(),
            scalar_value(s1.0),
            scalar_value(s1.1),
            point_value(proof_base1),
        ) && schnorr_accepts(
            point_value(*g),
            point_value(*h),
            scalar_value(*challenge),
            c2.value(),
            scalar_value(s2.0),
            scalar_value(s2.1),
            point_value(proof_base2),
        ) && scalar_value(s2.0) == relation.spec_apply(scalar_value(s1.0)) % group_order()),
{
    let ok1 = schnorr_verify(g, h, challenge, c1, s1, proof_base1);
    let ok2 = schnorr_verify(g, h, challenge, c2, s2, proof_base2);
    let expected = relation.apply(&s1.0);
    let ok_relation = scalar_eq(&s2.0, &expected);
    ok1 && ok2 && ok_relation
}

/// Law (completeness): an honest run of the three moves always convinces
/// the verifier.  For any secret `x`, blinding `b`, nonces `a1, a2` and
/// challenge `c`, the responses `s1 = a1 - c*x`, `s2 = a2 - c*b` satisfy
/// the acceptance condition for the commitment `x*g + b*h` and the proof
/// base `a1*g + a2*h`.
pub proof fn lemma_schnorr_completeness(g: nat, h: nat, x: nat, b: nat, a1: nat, a2: nat, c: nat)
    ensures
        schnorr_accepts(
            g,
            h,
            c,
            pedersen_val(x, g, b, h),
            sub_l(a1, mul_l(c, x)),
            sub_l(a2, mul_l(c, b)),
            pedersen_val(a1, g, a2, h),
        ),
{
    let cm = pedersen_val(x, g, b, h);
    let s1 = sub_l(a1, mul_l(c, x));
    let s2 = sub_l(a2, mul_l(c, b));
    let lhs = add_l(pedersen_val(s1, g, s2, h), mul_l(c, cm));
    // s1 is congruent to a1 - c*x, s2 to a2 - c*b.
    lemma_mul_l_cong(c, x);
    lemma_mul_l_cong(c, b);
    lemma_sub_l_cong(a1, mul_l(c, x));
    lemma_sub_l_cong(a2, mul_l(c, b));
    lemma_cong_refl(a1 as int);
    lemma_cong_refl(a2 as int);
    lemma_cong_sub(a1 as int, a1 as int, mul_l(c, x) as int, (c * x) as int);
    lemma_cong_sub(a2 as int, a2 as int, mul_l(c, b) as int, (c * b) as int);
    lemma_cong_trans(s1 as int, a1 - mul_l(c, x), a1 - c * x);
    lemma_cong_trans(s2 as int, a2 - mul_l(c, b), a2 - c * b);
    // s1*g and s2*h, reduced, are congruent to (a1 - c*x)*g and (a2 - c*b)*h.
    lemma_cong_refl(g as int);
    lemma_cong_refl(h as int);
    lemma_mul_l_cong(s1, g);
    lemma_mul_l_cong(s2, h);
    lemma_cong_mul(s1 as int, a1 - c * x, g as int, g as int);
    lemma_cong_mul(s2 as int, a2 - c * b, h as int, h as int);
    lemma_cong_trans(mul_l(s1, g) as int, (s1 * g) as int, (a1 - c * x) * g);
    lemma_cong_trans(mul_l(s2, h) as int, (s2 * h) as int, (a2 - c * b) * h);
    // The recomputed base is congruent to (a1-c*x)*g + (a2-c*b)*h + c*(x*g + b*h).
    lemma_add_l_cong(mul_l(s1, g), mul_l(s2, h));
    lemma_cong_add(
        mul_l(s1, g) as int,
        (a1 - c * x) * g,
        mul_l(s2, h) as int,
        (a2 - c * b) * h,
    );
    lemma_cong_trans(
        pedersen_val(s1, g, s2, h) as int,
        (mul_l(s1, g) + mul_l(s2, h)) as int,
        (a1 - c * x) * g + (a2 - c * b) * h,
    );
    lemma_mul_l_cong(x, g);
    lemma_mul_l_cong(b, h);
    lemma_add_l_cong(mul_l(x, g), mul_l(b, h));
    lemma_cong_add(mul_l(x, g) as int, (x * g) as int, mul_l(b, h) as int, (b * h) as int);
    lemma_cong_trans(cm as int, (mul_l(x, g) + mul_l(b, h)) as int, (x * g + b * h) as int);
    lemma_cong_refl(c as int);
    lemma_mul_l_cong(c, cm);
    lemma_cong_mul(c as int, c as int, cm as int, (x * g + b * h) as int);
    lemma_cong_trans(mul_l(c, cm) as int, (c * cm) as int, (c * (x * g + b * h)) as int);
    lemma_add_l_cong(pedersen_val(s1, g, s2, h), mul_l(c, cm));
    lemma_cong_add(
        pedersen_val(s1, g, s2, h) as int,
        (a1 - c * x) * g + (a2 - c * b) * h,
        mul_l(c, cm) as int,
        (c * (x * g + b * h)) as int,
    );
    lemma_cong_trans(
        lhs as int,
        (pedersen_val(s1, g, s2, h) + mul_l(c, cm)) as int,
        (a1 - c * x) * g + (a2 - c * b) * h + c * (x * g + b * h),
    );
    // Algebra: the responses cancel the challenge term, leaving a1*g + a2*h.
    assert((a1 - c * x) * g + (a2 - c * b) * h + c * (x * g + b * h) == a1 * g + a2 * h)
        by (nonlinear_arith);
    // The announced base is congruent to a1*g + a2*h as well.
    lemma_mul_l_cong(a1, g);
    lemma_mul_l_cong(a2, h);
    lemma_add_l_cong(mul_l(a1, g), mul_l(a2, h));
    lemma_cong_add(mul_l(a1, g) as int, (a1 * g) as int, mul_l(a2, h) as int, (a2 * h) as int);
    lemma_cong_trans(
        pedersen_val(a1, g, a2, h) as int,
        (mul_l(a1, g) + mul_l(a2, h)) as int,
        (a1 * g + a2 * h) as int,
    );
    lemma_cong_sym(pedersen_val(a1, g, a2, h) as int, (a1 * g + a2 * h) as int);
    lemma_cong_trans(lhs as int, (a1 * g + a2 * h) as int, pedersen_val(a1, g, a2, h) as int);
    lemma_cong_unique(lhs as int, pedersen_val(a1, g, a2, h) as int);
}

/// Law (special soundness, honest transcripts): two responses to distinct
/// challenges `c1, c2`, built from the same nonce `a1` and secret `x`,
/// determine the secret: any solution of the extraction equation
/// `(c2 - c1) * xr == s1 - s2` with `xr` reduced — in particular the value
/// `schnorr_extract` returns — equals `x`.  `iv` witnesses that `c2 - c1`
/// is invertible, which holds whenever `c1 != c2` since the group order is
/// prime.
pub proof fn lemma_schnorr_extraction(x: nat, a1: nat, c1: nat, c2: nat, xr: nat, iv: nat)
    requires
        x < group_order(),
        xr < group_order(),
        mul_l(sub_l(c2, c1), iv) == 1,
        mul_l(sub_l(c2, c1), xr) == sub_l(
            sub_l(a1, mul_l(c1, x)),
            sub_l(a1, mul_l(c2, x)),
        ),
    ensures
        xr == x,
{
    let dc = sub_l(c2, c1);
    let s1 = sub_l(a1, mul_l(c1, x));
    let s2 = sub_l(a1, mul_l(c2, x));
    // s1 - s2 is congruent to (c2 - c1) * x.
    lemma_mul_l_cong(c1, x);
    lemma_mul_l_cong(c2, x);
    lemma_sub_l_cong(a1, mul_l(c1, x));
    lemma_sub_l_cong(a1, mul_l(c2, x));
    lemma_cong_refl(a1 as int);
    lemma_cong_sub(a1 as int, a1 as int, mul_l(c1, x) as int, (c1 * x) as int);
    lemma_cong_sub(a1 as int, a1 as int, mul_l(c2, x) as int, (c2 * x) as int);
    lemma_cong_trans(s1 as int, a1 - mul_l(c1, x), a1 - c1 * x);
    lemma_cong_trans(s2 as int, a1 - mul_l(c2, x), a1 - c2 * x);
    lemma_sub_l_cong(s1, s2);
    lemma_cong_sub(s1 as int, a1 - c1 * x, s2 as int, a1 - c2 * x);
    lemma_cong_trans(sub_l(s1, s2) as int, s1 - s2, (a1 - c1 * x) - (a1 - c2 * x));
    // dc * xr is congruent to dc * x: chain through the hypothesis.
    lemma_sub_l_cong(c2, c1);
    lemma_cong_refl(x as int);
    lemma_cong_mul(dc as int, c2 - c1, x as int, x as int);
    lemma_mul_l_cong(dc, x);
    assert((a1 - c1 * x) - (a1 - c2 * x) == (c2 - c1) * (x as int)) by (nonlinear_arith);
    lemma_cong_sym((dc * x) as int, (c2 - c1) * (x as int));
    lemma_cong_trans(sub_l(s1, s2) as int, (c2 - c1) * (x as int), (dc * x) as int);
    lemma_mul_l_cong(dc, xr);
    lemma_cong_trans(mul_l(dc, xr) as int, sub_l(s1, s2) as int, (dc * x) as int);
    lemma_cong_sym(mul_l(dc, xr) as int, (dc * xr) as int);
    lemma_cong_trans((dc * xr) as int, mul_l(dc, xr) as int, (dc * x) as int);
    // Multiply both sides by the inverse of dc to cancel it.
    lemma_cong_refl(iv as int);
    lemma_cong_mul((dc * xr) as int, (dc * x) as int, iv as int, iv as int);
    // iv * dc reduces to 1, so (dc * y) * iv is congruent to y for both sides.
    lemma_mul_l_cong(dc, iv);
    lemma_cong_refl(xr as int);
    lemma_cong_refl(x as int);
    lemma_cong_mul(xr as int, xr as int, mul_l(dc, iv) as int, (dc * iv) as int);
    lemma_cong_mul(x as int, x as int, mul_l(dc, iv) as int, (dc * iv) as int);
    assert(xr * mul_l(dc, iv) == xr) by (nonlinear_arith)
        requires
            mul_l(dc, iv) == 1,
    ;
    assert(x * mul_l(dc, iv) == x) by (nonlinear_arith)
        requires
            mul_l(dc, iv) == 1,
    ;
    assert(dc * xr * iv == xr * (dc * iv)) by (nonlinear_arith);
    assert(dc * x * iv == x * (dc * iv)) by (nonlinear_arith);
    lemma_cong_sym(xr as int, (xr * (dc * iv)) as int);
    lemma_cong_trans(xr as int, (xr * (dc * iv)) as int, ((dc * xr) * iv) as int);
    lemma_cong_trans(xr as int, ((dc * xr) * iv) as int, ((dc * x) * iv) as int);
    lemma_cong_trans(xr as int, ((dc * x) * iv) as int, (x * (dc * iv)) as int);
    lemma_cong_trans(xr as int, (x * (dc * iv)) as int, x as int);
    lemma_cong_unique(xr as int, x as int);
}

/// Law (relation completeness): an honest run of the relation variant for
/// the scale relation `s -> k*s` convinces the verifier.  With
/// `x2 = k*x1` (reduced), nonces `a2 = k*a1` and `r2 = k*r1` derived by the
/// relation, and a shared challenge, both Schnorr equations hold and the
/// first response components themselves satisfy `s2 = k*s1`.
pub proof fn lemma_relation_completeness(
    g: nat,
    h: nat,
    k: nat,
    x1: nat,
    b1: nat,
    b2: nat,
    a1: nat,
    r1: nat,
    c: nat,
)
    ensures
        schnorr_accepts(
            g,
            h,
            c,
            pedersen_val(x1, g, b1, h),
            sub_l(a1, mul_l(c, x1)),
            sub_l(r1, mul_l(c, b1)),
            pedersen_val(a1, g, r1, h),
        ),
        schnorr_accepts(
            g,
            h,
            c,
            pedersen_val(mul_l(k, x1), g, b2, h),
            sub_l(mul_l(k, a1), mul_l(c, mul_l(k, x1))),
            sub_l(mul_l(k, r1), mul_l(c, b2)),
            pedersen_val(mul_l(k, a1), g, mul_l(k, r1), h),
        ),
        sub_l(mul_l(k, a1), mul_l(c, mul_l(k, x1))) == mul_l(k, sub_l(a1, mul_l(c, x1))),
{
    // Each instance is an honest Schnorr run, so the general completeness
    // law applies to both.
    lemma_schnorr_completeness(g, h, x1, b1, a1, r1, c);
    lemma_schnorr_completeness(g, h, mul_l(k, x1), b2, mul_l(k, a1), mul_l(k, r1), c);
    // The second first-component response is k times the first one:
    // k*a1 - c*(k*x1) == k*(a1 - c*x1), carried through the reductions.
    let s1 = sub_l(a1, mul_l(c, x1));
    let s2 = sub_l(mul_l(k, a1), mul_l(c, mul_l(k, x1)));
    lemma_mul_l_cong(c, x1);
    lemma_sub_l_cong(a1, mul_l(c, x1));
    lemma_cong_refl(a1 as int);
    lemma_cong_sub(a1 as int, a1 as int, mul_l(c, x1) as int, (c * x1) as int);
    lemma_cong_trans(s1 as int, a1 - mul_l(c, x1), a1 - c * x1);
    // s2 is congruent to k*a1 - c*(k*x1).
    lemma_mul_l_cong(k, a1);
    lemma_mul_l_cong(k, x1);
    lemma_cong_refl(c as int);
    lemma_cong_mul(c as int, c as int, mul_l(k, x1) as int, (k * x1) as int);
    lemma_mul_l_cong(c, mul_l(k, x1));
    lemma_cong_trans(
        mul_l(c, mul_l(k, x1)) as int,
        (c * mul_l(k, x1)) as int,
        (c * (k * x1)) as int,
    );
    lemma_sub_l_cong(mul_l(k, a1), mul_l(c, mul_l(k, x1)));
    lemma_cong_sub(
        mul_l(k, a1) as int,
        (k * a1) as int,
        mul_l(c, mul_l(k, x1)) as int,
        (c * (k * x1)) as int,
    );
    lemma_cong_trans(
        s2 as int,
        mul_l(k, a1) - mul_l(c, mul_l(k, x1)),
        k * a1 - c * (k * x1),
    );
    // The right-hand side is congruent to k*(a1 - c*x1).
    lemma_cong_refl(k as int);
    lemma_cong_mul(k as int, k as int, s1 as int, a1 - c * x1);
    lemma_mul_l_cong(k, s1);
    lemma_cong_trans(mul_l(k, s1) as int, (k * s1) as int, k * (a1 - c * x1));
    assert(k * a1 - c * (k * x1) == k * (a1 - c * x1)) by (nonlinear_arith);
    lemma_cong_sym(mul_l(k, s1) as int, k * (a1 - c * x1));
    lemma_cong_trans(s2 as int, k * (a1 - c * x1), mul_l(k, s1) as int);
    lemma_cong_unique(s2 as int, mul_l(k, s1) as int);
}

} // verus!
