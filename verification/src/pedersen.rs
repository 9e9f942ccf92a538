//! Pedersen commitments: `commitment = secret * g + blinding * h` over the
//! prime-order group, with creation, opening, and comparison of two
//! commitments given only the difference of their blinding factors.

use vstd::prelude::*;

verus! {

use curve25519_dalek::ristretto::RistrettoPoint;
use curve25519_dalek::scalar::Scalar;
use rand::rngs::ThreadRng;
use crate::modmath::{
    group_order, add_l, mul_l, sub_l, cong, lemma_cong_refl, lemma_cong_sym, lemma_cong_trans,
    lemma_cong_add, lemma_cong_mul, lemma_cong_sub, lemma_cong_unique, lemma_add_l_cong,
    lemma_mul_l_cong, lemma_sub_l_cong,
};
use crate::group::{
    scalar_value, point_value, scalar_random, point_random, point_eq, point_add, point_sub,
    point_scalar_mul,
};

/// The residue committed to by secret `s` and blinding `b` under generators
/// with discrete logarithms `g` and `h`.
pub open spec fn pedersen_val(s: nat, g: nat, b: nat, h: nat) -> nat {
    add_l(mul_l(s, g), mul_l(b, h))
}

/// A commitment together with the pair of generators it was made under; two
/// commitments may be compared only when their generators match.
pub struct Commitment {
    pub commitment: RistrettoPoint,
    pub g: RistrettoPoint,
    pub h: RistrettoPoint,
}

impl Commitment {
    /// The committed group element, as its discrete logarithm.
    pub open spec fn value(self) -> nat {
        point_value(self.commitment)
    }

    pub open spec fn g_val(self) -> nat {
        point_value(self.g)
    }

    pub open spec fn h_val(self) -> nat {
        point_value(self.h)
    }
}

/// The secret and the blinding factor: what it takes to open a commitment.
pub type Opening = (Scalar, Scalar);

#[derive(Clone, Copy, Debug, PartialEq, Eq, Structural)]
pub enum CommitmentError {
    /// The two commitments were made under different generators, so
    /// comparing them would be meaningless.
    GeneratorMismatch,
}

/// Sample the public key of the scheme: two independent, uniformly random
/// generators.  Nothing is promised of which elements come back; their
/// mutual discrete logarithm staying unknown is what makes commitments
/// binding in practice.
pub fn setup(rng: &mut ThreadRng) -> (r: (RistrettoPoint, RistrettoPoint))
    ensures
        point_value(r.0) < group_order(),
        point_value(r.1) < group_order(),
{
    let g = point_random(rng);
    let h = point_random(rng);
    (g, h)
}

/// Commit to `secret` under the generators `g` and `h`, drawing a fresh
/// random blinding factor.  Returns the commitment bound to its generators,
/// and the opening `(secret, blinding)`.
pub fn create_commitment(
    secret: &Scalar,
    g: &RistrettoPoint,
    h: &RistrettoPoint,
    rng: &mut ThreadRng,
) -> (r: (Commitment, Opening))
    ensures
        r.0.value() == pedersen_val(
            scalar_value(r.1.0),
            r.0.g_val(),
            scalar_value(r.1.1),
            r.0.h_val(),
        ),
        scalar_value(r.1.0) == scalar_value(*secret),
        scalar_value(r.1.1) < group_order(),
        r.0.g_val() == point_value(*g),
        r.0.h_val() == point_value(*h),
{
    let blinding = scalar_random(rng);
    let sg = point_scalar_mul(secret, g);
    let bh = point_scalar_mul(&blinding, h);
    let commitment = point_add(&sg, &bh);
    (
        Commitment { commitment, g: *g, h: *h },
        (*secret, blinding),
    )
}

/// Recompute the committed element from the opening and the generators bound
/// to the commitment, and compare.  True exactly when the opening matches.
pub fn verify_commitment(commitment: &Commitment, opening: &Opening) -> (r: bool)
    ensures
        r == (commitment.value() == pedersen_val(
            scalar_value(opening.0),
            commitment.g_val(),
            scalar_value(opening.1),
            commitment.h_val(),
        )),
{
    let sg = point_scalar_mul(&opening.0, &commitment.g);
    let bh = point_scalar_mul(&opening.1, &commitment.h);
    let recomputed = point_add(&sg, &bh);
    point_eq(&commitment.commitment, &recomputed)
}

/// Decide whether `c1` and `c2` commit to the same secret, given only the
/// difference `diff_opening` of their blinding factors: the test is
/// `c1 - c2 == diff_opening * h`.  Fails with `GeneratorMismatch` when the
/// two commitments were made under different generators.
pub fn same_commitment(c1: &Commitment, c2: &Commitment, diff_opening: &Scalar) -> (r: Result<
    bool,
    CommitmentError,
>)
    ensures
        (c1.g_val() == c2.g_val() && c1.h_val() == c2.h_val()) ==> r == Ok::<
            bool,
            CommitmentError,
        >(sub_l(c1.value(), c2.value()) == mul_l(scalar_value(*diff_opening), c1.h_val())),
        (c1.g_val() != c2.g_val() || c1.h_val() != c2.h_val()) ==> r == Err::<
            bool,
            CommitmentError,
        >(CommitmentError::GeneratorMismatch),
{
    if !point_eq(&c1.g, &c2.g) || !point_eq(&c1.h, &c2.h) {
        return Err(CommitmentError::GeneratorMismatch);
    }
    let diff = point_sub(&c1.commitment, &c2.commitment);
    let expected = point_scalar_mul(diff_opening, &c1.h);
    Ok(point_eq(&diff, &expected))
}

/// An invertible factor admits no nontrivial zero product: if `d * x` is a
/// multiple of the group order and `d` has an inverse, then the reduced `x`
/// is zero.
proof fn lemma_invertible_cancels(d: nat, iv: nat, x: nat)
    requires
        mul_l(d, iv) == 1,
        cong((d * x) as int, 0),
        x < group_order(),
    ensures
        x == 0,
{
    // x is congruent to x * (d * iv), which regroups as (d * x) * iv.
    lemma_mul_l_cong(d, iv);
    lemma_cong_refl(x as int);
    lemma_cong_mul(x as int, x as int, mul_l(d, iv) as int, (d * iv) as int);
    assert(x * mul_l(d, iv) == x) by (nonlinear_arith)
        requires
            mul_l(d, iv) == 1,
    ;
    assert(x * (d * iv) == (d * x) * iv) by (nonlinear_arith);
    // (d * x) * iv is congruent to 0 * iv, which is 0.
    lemma_cong_refl(iv as int);
    lemma_cong_mul((d * x) as int, 0, iv as int, iv as int);
    lemma_cong_trans(x as int, ((d * x) * iv) as int, 0);
    lemma_cong_unique(x as int, 0);
}

/// Law: a commitment binds the secret against invertible shifts.  Changing
/// the committed secret by `d` changes the commitment, whenever the
/// generator `g` is not the identity and `d` is invertible (for the prime
/// group order, that is every `d` other than zero; `iv` is the witness the
/// prover can always compute with `Scalar::invert`).
pub proof fn lemma_tampered_secret_rejected(s: nat, g: nat, b: nat, h: nat, d: nat, iv: nat)
    requires
        0 < g < group_order(),
        mul_l(d, iv) == 1,
    ensures
        pedersen_val(add_l(s, d), g, b, h) != pedersen_val(s, g, b, h),
{
    let s2 = add_l(s, d);
    if pedersen_val(s2, g, b, h) == pedersen_val(s, g, b, h) {
        // Both commitments are congruent to their unreduced forms, so the
        // shifted and the original secret terms agree modulo the order.
        lemma_mul_l_cong(s2, g);
        lemma_mul_l_cong(s, g);
        lemma_mul_l_cong(b, h);
        lemma_add_l_cong(mul_l(s2, g), mul_l(b, h));
        lemma_add_l_cong(mul_l(s, g), mul_l(b, h));
        lemma_cong_add(mul_l(s2, g) as int, (s2 * g) as int, mul_l(b, h) as int, (b * h) as int);
        lemma_cong_add(mul_l(s, g) as int, (s * g) as int, mul_l(b, h) as int, (b * h) as int);
        lemma_cong_trans(
            pedersen_val(s2, g, b, h) as int,
            (mul_l(s2, g) + mul_l(b, h)) as int,
            (s2 * g + b * h) as int,
        );
        lemma_cong_trans(
            pedersen_val(s, g, b, h) as int,
            (mul_l(s, g) + mul_l(b, h)) as int,
            (s * g + b * h) as int,
        );
        lemma_cong_sym(pedersen_val(s2, g, b, h) as int, (s2 * g + b * h) as int);
        lemma_cong_trans(
            (s2 * g + b * h) as int,
            pedersen_val(s, g, b, h) as int,
            (s * g + b * h) as int,
        );
        // Subtracting the common parts leaves d * g congruent to 0.
        lemma_cong_sub(
            (s2 * g + b * h) as int,
            (s * g + b * h) as int,
            (b * h) as int,
            (b * h) as int,
        );
        lemma_cong_refl((b * h) as int);
        lemma_add_l_cong(s, d);
        lemma_cong_refl(g as int);
        lemma_cong_mul(s2 as int, (s + d) as int, g as int, g as int);
        lemma_cong_sym(s2 as int, (s + d) as int);
        lemma_cong_sub((s2 * g) as int, (s * g) as int, ((s + d) * g) as int, (s2 * g) as int);
        lemma_cong_mul((s + d) as int, s2 as int, g as int, g as int);
        assert((s2 * g) - ((s + d) * g) + ((s + d) * g - s * g) == s2 * g - s * g) by (nonlinear_arith);
        assert(((s + d) * g) - (s * g) == (d * g) as int) by (nonlinear_arith);
        lemma_cong_sub(((s + d) * g) as int, (s2 * g) as int, (s * g) as int, (s * g) as int);
        lemma_cong_refl((s * g) as int);
        lemma_cong_trans((d * g) as int, (s2 * g - s * g) as int, 0);
        // An invertible d cannot annihilate a nonzero generator.
        lemma_invertible_cancels(d, iv, g);
    }
}

/// Law: a commitment binds the blinding factor the same way: changing it
/// by an invertible `d` changes the commitment whenever `h` is not the
/// identity.
pub proof fn lemma_tampered_blinding_rejected(s: nat, g: nat, b: nat, h: nat, d: nat, iv: nat)
    requires
        0 < h < group_order(),
        mul_l(d, iv) == 1,
    ensures
        pedersen_val(s, g, add_l(b, d), h) != pedersen_val(s, g, b, h),
{
    let b2 = add_l(b, d);
    if pedersen_val(s, g, b2, h) == pedersen_val(s, g, b, h) {
        lemma_mul_l_cong(s, g);
        lemma_mul_l_cong(b2, h);
        lemma_mul_l_cong(b, h);
        lemma_add_l_cong(mul_l(s, g), mul_l(b2, h));
        lemma_add_l_cong(mul_l(s, g), mul_l(b, h));
        lemma_cong_add(mul_l(s, g) as int, (s * g) as int, mul_l(b2, h) as int, (b2 * h) as int);
        lemma_cong_add(mul_l(s, g) as int, (s * g) as int, mul_l(b, h) as int, (b * h) as int);
        lemma_cong_trans(
            pedersen_val(s, g, b2, h) as int,
            (mul_l(s, g) + mul_l(b2, h)) as int,
            (s * g + b2 * h) as int,
        );
        lemma_cong_trans(
            pedersen_val(s, g, b, h) as int,
            (mul_l(s, g) + mul_l(b, h)) as int,
            (s * g + b * h) as int,
        );
        lemma_cong_sym(pedersen_val(s, g, b2, h) as int, (s * g + b2 * h) as int);
        lemma_cong_trans(
            (s * g + b2 * h) as int,
            pedersen_val(s, g, b, h) as int,
            (s * g + b * h) as int,
        );
        lemma_cong_sub(
            (s * g + b2 * h) as int,
            (s * g + b * h) as int,
            (s * g) as int,
            (s * g) as int,
        );
        lemma_cong_refl((s * g) as int);
        lemma_add_l_cong(b, d);
        lemma_cong_refl(h as int);
        lemma_cong_mul(b2 as int, (b + d) as int, h as int, h as int);
        assert((b2 * h) - (b * h) == (b2 - b) * (h as int)) by (nonlinear_arith);
        lemma_cong_sub((b2 * h) as int, ((b + d) * h) as int, (b * h) as int, (b * h) as int);
        lemma_cong_refl((b * h) as int);
        assert(((b + d) * h) - (b * h) == (d * h) as int) by (nonlinear_arith);
        lemma_cong_trans((d * h) as int, (b2 * h - b * h) as int, 0);
        lemma_invertible_cancels(d, iv, h);
    }
}

/// Law: two commitments to the same secret under the same generators are
/// recognised by `same_commitment` when handed the difference of their
/// blinding factors.
pub proof fn lemma_same_secret_detected(s: nat, g: nat, b1: nat, b2: nat, h: nat)
    ensures
        sub_l(pedersen_val(s, g, b1, h), pedersen_val(s, g, b2, h)) == mul_l(sub_l(b1, b2), h),
{
    let c1 = pedersen_val(s, g, b1, h);
    let c2 = pedersen_val(s, g, b2, h);
    let sg = mul_l(s, g);
    let b1h = mul_l(b1, h);
    let b2h = mul_l(b2, h);
    // c1 is congruent to s*g + b1*h, c2 to s*g + b2*h.
    lemma_mul_l_cong(s, g);
    lemma_mul_l_cong(b1, h);
    lemma_mul_l_cong(b2, h);
    lemma_add_l_cong(sg, b1h);
    lemma_add_l_cong(sg, b2h);
    lemma_cong_add(sg as int, (s * g) as int, b1h as int, (b1 * h) as int);
    lemma_cong_add(sg as int, (s * g) as int, b2h as int, (b2 * h) as int);
    lemma_cong_trans(c1 as int, (sg + b1h) as int, (s * g + b1 * h) as int);
    lemma_cong_trans(c2 as int, (sg + b2h) as int, (s * g + b2 * h) as int);
    // The difference of the two commitments is congruent to (b1 - b2) * h.
    lemma_sub_l_cong(c1, c2);
    lemma_cong_sub(c1 as int, (s * g + b1 * h) as int, c2 as int, (s * g + b2 * h) as int);
    lemma_cong_trans(
        sub_l(c1, c2) as int,
        c1 - c2,
        (s * g + b1 * h) - (s * g + b2 * h),
    );
    assert((s * g + b1 * h) - (s * g + b2 * h) == (b1 - b2) * (h as int)) by (nonlinear_arith);
    // The right-hand side is congruent to (b1 - b2) * h as well.
    lemma_sub_l_cong(b1, b2);
    lemma_cong_refl(h as int);
    lemma_cong_mul(sub_l(b1, b2) as int, b1 - b2, h as int, h as int);
    lemma_mul_l_cong(sub_l(b1, b2), h);
    lemma_cong_trans(
        mul_l(sub_l(b1, b2), h) as int,
        (sub_l(b1, b2) * h) as int,
        (b1 - b2) * (h as int),
    );
    // Both sides are reduced residues, so congruence gives equality.
    lemma_cong_sym(mul_l(sub_l(b1, b2), h) as int, (b1 - b2) * (h as int));
    lemma_cong_trans(sub_l(c1, c2) as int, (b1 - b2) * (h as int), mul_l(sub_l(b1, b2), h) as int);
    lemma_cong_unique(sub_l(c1, c2) as int, mul_l(sub_l(b1, b2), h) as int);
}

} // verus!
