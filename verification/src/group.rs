//! Trusted boundary to the prime-order group (Ristretto points and their
//! scalar field) and to the random source.
//!
//! The group is cyclic of prime order, so every element is determined by its
//! discrete logarithm with respect to a fixed generator.  `point_value` maps
//! each element to that residue, `scalar_value` maps each scalar to the
//! residue it stands for; both are always below the group order.  Every
//! contract below states, over those residues, what the corresponding
//! curve25519-dalek operation computes.

use vstd::prelude::*;

verus! {

use crate::modmath::{group_order, add_l, mul_l, sub_l};

#[verifier::external_type_specification]
#[verifier::external_body]
pub struct ExScalar(curve25519_dalek::scalar::Scalar);

#[verifier::external_type_specification]
#[verifier::external_body]
pub struct ExRistrettoPoint(curve25519_dalek::ristretto::RistrettoPoint);

#[verifier::external_type_specification]
#[verifier::external_body]
pub struct ExThreadRng(rand::rngs::ThreadRng);

/// The residue modulo the group order that a scalar stands for.
pub uninterp spec fn scalar_value(s: curve25519_dalek::scalar::Scalar) -> nat;

/// The discrete logarithm, with respect to a fixed generator, of a group
/// element.
pub uninterp spec fn point_value(p: curve25519_dalek::ristretto::RistrettoPoint) -> nat;

/// Relies on Scalar::from(u32): embeds a machine integer as the scalar with
/// that value (2^32 is far below the group order).
#[verifier::external_body]
pub(crate) fn scalar_from_u32(x: u32) -> (r: curve25519_dalek::scalar::Scalar)
    ensures
        scalar_value(r) == x as nat,
        scalar_value(r) < group_order(),
{
    curve25519_dalek::scalar::Scalar::from(x)
}

/// Relies on Scalar::random: a scalar drawn from Z mod the group order.
/// Nothing is promised of which residue comes back.
#[verifier::external_body]
pub(crate) fn scalar_random(rng: &mut rand::rngs::ThreadRng) -> (r:
    curve25519_dalek::scalar::Scalar)
    ensures
        scalar_value(r) < group_order(),
{
    curve25519_dalek::scalar::Scalar::random(rng)
}

/// Relies on the `Sub` impl for Scalar: subtraction modulo the group order.
#[verifier::external_body]
pub(crate) fn scalar_sub(
    a: &curve25519_dalek::scalar::Scalar,
    b: &curve25519_dalek::scalar::Scalar,
) -> (r: curve25519_dalek::scalar::Scalar)
    ensures
        scalar_value(r) == sub_l(scalar_value(*a), scalar_value(*b)),
{
    a - b
}

/// Relies on the `Mul` impl for Scalar: multiplication modulo the group
/// order.
#[verifier::external_body]
pub(crate) fn scalar_mul(
    a: &curve25519_dalek::scalar::Scalar,
    b: &curve25519_dalek::scalar::Scalar,
) -> (r: curve25519_dalek::scalar::Scalar)
    ensures
        scalar_value(r) == mul_l(scalar_value(*a), scalar_value(*b)),
{
    a * b
}

/// Relies on Scalar::invert: the multiplicative inverse of a nonzero scalar
/// modulo the (prime) group order.
#[verifier::external_body]
pub(crate) fn scalar_invert(s: &curve25519_dalek::scalar::Scalar) -> (r:
    curve25519_dalek::scalar::Scalar)
    requires
        scalar_value(*s) != 0,
    ensures
        mul_l(scalar_value(*s), scalar_value(r)) == 1,
        scalar_value(r) < group_order(),
{
    s.invert()
}

/// Relies on the `PartialEq` impl for Scalar: scalars are kept in canonical
/// form, so they compare equal exactly when they stand for the same residue.
#[verifier::external_body]
pub(crate) fn scalar_eq(
    a: &curve25519_dalek::scalar::Scalar,
    b: &curve25519_dalek::scalar::Scalar,
) -> (r: bool)
    ensures
        r == (scalar_value(*a) == scalar_value(*b)),
{
    a == b
}

/// Relies on RistrettoPoint::random: a uniformly random group element.
/// Nothing is promised of which element comes back.
#[verifier::external_body]
pub(crate) fn point_random(rng: &mut rand::rngs::ThreadRng) -> (r:
    curve25519_dalek::ristretto::RistrettoPoint)
    ensures
        point_value(r) < group_order(),
{
    curve25519_dalek::ristretto::RistrettoPoint::random(rng)
}

/// Relies on the `Add` impl for RistrettoPoint: the group operation, which
/// adds discrete logarithms modulo the group order.
#[verifier::external_body]
pub(crate) fn point_add(
    a: &curve25519_dalek::ristretto::RistrettoPoint,
    b: &curve25519_dalek::ristretto::RistrettoPoint,
) -> (r: curve25519_dalek::ristretto::RistrettoPoint)
    ensures
        point_value(r) == add_l(point_value(*a), point_value(*b)),
{
    a + b
}

/// Relies on the `Sub` impl for RistrettoPoint: subtracts discrete
/// logarithms modulo the group order.
#[verifier::external_body]
pub(crate) fn point_sub(
    a: &curve25519_dalek::ristretto::RistrettoPoint,
    b: &curve25519_dalek::ristretto::RistrettoPoint,
) -> (r: curve25519_dalek::ristretto::RistrettoPoint)
    ensures
        point_value(r) == sub_l(point_value(*a), point_value(*b)),
{
    a - b
}

/// Relies on the `Mul` impl for RistrettoPoint by a Scalar: scalar
/// multiplication, which multiplies the discrete logarithm by the scalar
/// modulo the group order.
#[verifier::external_body]
pub(crate) fn point_scalar_mul(
    s: &curve25519_dalek::scalar::Scalar,
    p: &curve25519_dalek::ristretto::RistrettoPoint,
) -> (r: curve25519_dalek::ristretto::RistrettoPoint)
    ensures
        point_value(r) == mul_l(scalar_value(*s), point_value(*p)),
{
    s * p
}

/// Relies on the `PartialEq` impl for RistrettoPoint: equality of group
/// elements, which holds exactly when the discrete logarithms agree.
#[verifier::external_body]
pub(crate) fn point_eq(
    a: &curve25519_dalek::ristretto::RistrettoPoint,
    b: &curve25519_dalek::ristretto::RistrettoPoint,
) -> (r: bool)
    ensures
        r == (point_value(*a) == point_value(*b)),
{
    a == b
}

/// Relies on Rng::gen for u32: a random machine word.  Nothing is promised
/// of which value comes back.
#[verifier::external_body]
pub(crate) fn random_u32(rng: &mut rand::rngs::ThreadRng) -> (r: u32) {
    rand::Rng::gen(rng)
}

} // verus!
