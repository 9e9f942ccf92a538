//! Trusted boundary to the big-integer arithmetic that the prime search and
//! the signature scheme compute with.
//!
//! `big_value` maps each big unsigned integer to the natural number it
//! holds; every contract below states, over those values, what the
//! corresponding num-bigint-dig operation computes.

use vstd::prelude::*;

verus! {

use vstd::arithmetic::power::pow;
use vstd::arithmetic::power2::pow2;

#[verifier::external_type_specification]
#[verifier::external_body]
pub struct ExBigUint(num_bigint_dig::BigUint);

/// The natural number that a big unsigned integer holds.
pub uninterp spec fn big_value(b: num_bigint_dig::BigUint) -> nat;

/// `b ^ e mod m`, over unbounded integers.
pub open spec fn pow_mod(b: int, e: nat, m: int) -> int {
    pow(b, e) % m
}

/// The greatest common divisor, by Euclid's algorithm.
pub open spec fn spec_gcd(a: nat, b: nat) -> nat
    decreases b,
{
    if b == 0 {
        a
    } else {
        spec_gcd(b, a % b)
    }
}

/// Two naturals are coprime when their greatest common divisor is 1.
pub open spec fn coprime(a: nat, b: nat) -> bool {
    spec_gcd(a, b) == 1
}

/// Relies on BigUint::from(u64): embeds a machine integer.
#[verifier::external_body]
pub(crate) fn big_from_u64(x: u64) -> (r: num_bigint_dig::BigUint)
    ensures
        big_value(r) == x as nat,
{
    num_bigint_dig::BigUint::from(x)
}

/// Relies on the `Clone` impl for BigUint: an equal, independent copy.
#[verifier::external_body]
pub(crate) fn big_clone(a: &num_bigint_dig::BigUint) -> (r: num_bigint_dig::BigUint)
    ensures
        big_value(r) == big_value(*a),
{
    a.clone()
}

/// Relies on the `Sub` impl for BigUint, which panics on underflow: only
/// a value no larger than `a` may be subtracted from it.
#[verifier::external_body]
pub(crate) fn big_sub(
    a: &num_bigint_dig::BigUint,
    b: &num_bigint_dig::BigUint,
) -> (r: num_bigint_dig::BigUint)
    requires
        big_value(*b) <= big_value(*a),
    ensures
        big_value(r) == big_value(*a) - big_value(*b),
{
    a - b
}

/// Relies on the `Mul` impl for BigUint.
#[verifier::external_body]
pub(crate) fn big_mul(
    a: &num_bigint_dig::BigUint,
    b: &num_bigint_dig::BigUint,
) -> (r: num_bigint_dig::BigUint)
    ensures
        big_value(r) == big_value(*a) * big_value(*b),
{
    a * b
}

/// Relies on the `Div` impl for BigUint: Euclidean quotient; panics on a
/// zero divisor.
#[verifier::external_body]
pub(crate) fn big_div(
    a: &num_bigint_dig::BigUint,
    b: &num_bigint_dig::BigUint,
) -> (r: num_bigint_dig::BigUint)
    requires
        big_value(*b) > 0,
    ensures
        big_value(r) == big_value(*a) / big_value(*b),
{
    a / b
}

/// Relies on the `Rem` impl for BigUint: Euclidean remainder; panics on a
/// zero divisor.
#[verifier::external_body]
pub(crate) fn big_mod(
    a: &num_bigint_dig::BigUint,
    b: &num_bigint_dig::BigUint,
) -> (r: num_bigint_dig::BigUint)
    requires
        big_value(*b) > 0,
    ensures
        big_value(r) == big_value(*a) % big_value(*b),
{
    a % b
}

/// Relies on BigUint::modpow: `base ^ exponent mod modulus`; panics on a
/// zero modulus.
#[verifier::external_body]
pub(crate) fn big_modpow(
    base: &num_bigint_dig::BigUint,
    exponent: &num_bigint_dig::BigUint,
    modulus: &num_bigint_dig::BigUint,
) -> (r: num_bigint_dig::BigUint)
    requires
        big_value(*modulus) > 0,
    ensures
        big_value(r) == pow_mod(
            big_value(*base) as int,
            big_value(*exponent),
            big_value(*modulus) as int,
        ),
{
    base.modpow(exponent, modulus)
}

/// Relies on the `PartialEq` impl for BigUint: the representation is
/// canonical, so equality coincides with equality of the held values.
#[verifier::external_body]
pub(crate) fn big_eq(a: &num_bigint_dig::BigUint, b: &num_bigint_dig::BigUint) -> (r: bool)
    ensures
        r == (big_value(*a) == big_value(*b)),
{
    a == b
}

/// Relies on the `PartialOrd` impl for BigUint: the order of the held
/// values.
#[verifier::external_body]
pub(crate) fn big_lt(a: &num_bigint_dig::BigUint, b: &num_bigint_dig::BigUint) -> (r: bool)
    ensures
        r == (big_value(*a) < big_value(*b)),
{
    a < b
}

/// Relies on BigUint::bits: the minimal bit width of the held value, so the
/// value lies below `2^bits`, and at or above `2^(bits-1)` when nonzero.
#[verifier::external_body]
pub(crate) fn big_bits(a: &num_bigint_dig::BigUint) -> (r: u64)
    ensures
        big_value(*a) < pow2(r as nat),
        big_value(*a) >= 1 ==> r >= 1 && pow2((r - 1) as nat) <= big_value(*a),
{
    a.bits() as u64
}

/// Relies on mod_inverse from num-bigint-dig's algorithms: it computes the
/// extended greatest common divisor and returns a value exactly when the
/// gcd is 1; that value is then a multiplicative inverse of `g` modulo `m`
/// (a negative Bezout coefficient is shifted by `m`, so it converts to an
/// unsigned value without loss).
#[verifier::external_body]
pub(crate) fn big_mod_inverse(
    g: &num_bigint_dig::BigUint,
    m: &num_bigint_dig::BigUint,
) -> (r: Option<num_bigint_dig::BigUint>)
    requires
        big_value(*m) > 0,
    ensures
        r.is_some() == coprime(big_value(*g), big_value(*m)),
        r matches Some(x) ==> (big_value(*g) * big_value(x)) % big_value(*m) == 1nat % big_value(
            *m,
        ),
{
    num_bigint_dig::algorithms::mod_inverse(
        std::borrow::Cow::Borrowed(g),
        std::borrow::Cow::Borrowed(m),
    ).and_then(|x| num_bigint_dig::ToBigUint::to_biguint(&x))
}

/// Relies on RandBigInt::gen_biguint: a uniform draw from `[0, 2^bits)`.
/// Nothing is promised of which value comes back beyond the bound.
#[verifier::external_body]
pub(crate) fn big_random_bits(rng: &mut rand::rngs::ThreadRng, bits: u64) -> (r:
    num_bigint_dig::BigUint)
    ensures
        big_value(r) < pow2(bits as nat),
{
    num_bigint_dig::RandBigInt::gen_biguint(rng, bits as usize)
}

/// Relies on RandBigInt::gen_biguint_below: a uniform draw from
/// `[0, bound)`; panics on a zero bound.  Nothing is promised of which
/// value comes back beyond the bound.
#[verifier::external_body]
pub(crate) fn big_random_below(
    rng: &mut rand::rngs::ThreadRng,
    bound: &num_bigint_dig::BigUint,
) -> (r: num_bigint_dig::BigUint)
    requires
        big_value(*bound) > 0,
    ensures
        big_value(r) < big_value(*bound),
{
    num_bigint_dig::RandBigInt::gen_biguint_below(rng, bound)
}

/// Relies on RandBigInt::gen_biguint_range: a uniform draw from
/// `[low, high)`; panics unless `low < high`.  Nothing is promised of
/// which value comes back beyond the bounds.
#[verifier::external_body]
pub(crate) fn big_random_range(
    rng: &mut rand::rngs::ThreadRng,
    low: &num_bigint_dig::BigUint,
    high: &num_bigint_dig::BigUint,
) -> (r: num_bigint_dig::BigUint)
    requires
        big_value(*low) < big_value(*high),
    ensures
        big_value(*low) <= big_value(r) < big_value(*high),
{
    num_bigint_dig::RandBigInt::gen_biguint_range(rng, low, high)
}

} // verus!
