//! Probabilistic primality testing (Miller-Rabin) and rejection-sampling
//! searches for primes and safe primes.

use vstd::prelude::*;

verus! {

use num_bigint_dig::BigUint;
use rand::rngs::ThreadRng;
use vstd::arithmetic::power::pow;
use vstd::arithmetic::power::lemma_pow_multiplies;
use vstd::arithmetic::power::lemma_pow_mod_noop;
use vstd::arithmetic::power2::pow2;
use vstd::arithmetic::power2::lemma_pow2_adds;
use vstd::arithmetic::power2::lemma_pow2_strictly_increases;
use vstd::arithmetic::power2::lemma2_to64;
use vstd::arithmetic::div_mod::lemma_fundamental_div_mod;
use vstd::arithmetic::div_mod::lemma_mod_multiples_basic;
use crate::bigint::{
    big_value, pow_mod, big_from_u64, big_sub, big_div, big_mod, big_modpow, big_eq, big_lt,
    big_bits, big_random_bits, big_random_range,
};

#[derive(Clone, Copy, Debug, PartialEq, Eq, Structural)]
pub enum PrimeError {
    /// The rejection-sampling search used up its allowance of draws
    /// without finding a prime of the requested shape.
    PrimeSearchExhausted,
}

/// What it means for a Miller-Rabin witness `a` to pass, for an odd `n >= 5`
/// decomposed as `n - 1 == 2^r * d` with `d` odd: either `a^d == 1 mod n`,
/// or some repeated squaring `a^(2^j * d) mod n`, `j < r`, hits `n - 1`.
/// Every witness passes when `n` is prime; a witness that fails proves `n`
/// composite.
pub open spec fn mr_witness_passes(n: nat, d: nat, r: nat, a: nat) -> bool {
    pow_mod(a as int, d, n as int) == 1 || (exists|j: nat|
        j < r && pow_mod(a as int, pow2(j) * d, n as int) == n - 1)
}

/// Split `p - 1` into `2^r * d` with `d` odd.
fn decompose(p: &BigUint) -> (res: (u64, BigUint))
    requires
        big_value(*p) >= 3,
        big_value(*p) % 2 == 1,
    ensures
        big_value(*p) - 1 == pow2(res.0 as nat) * big_value(res.1),
        big_value(res.1) % 2 == 1,
        res.0 >= 1,
{
    let one = big_from_u64(1);
    let two = big_from_u64(2);
    let zero = big_from_u64(0);
    let mut tmp = big_sub(p, &one);
    let bits = big_bits(&tmp);
    proof {
        // p is odd, so p - 1 is even.
        lemma_fundamental_div_mod(big_value(*p) as int, 2);
        lemma_mod_multiples_basic((big_value(*p) as int) / 2, 2);
        assert((big_value(*p) - 1) % 2 == 0);
        assert(pow2(0) == 1) by {
            lemma2_to64();
        }
    }
    let mut r: u64 = 0;
    let mut rem = big_mod(&tmp, &two);
    let mut even = big_eq(&rem, &zero);
    while even
        invariant
            big_value(*p) - 1 == pow2(r as nat) * big_value(tmp),
            big_value(tmp) >= 1,
            even == (big_value(tmp) % 2 == 0),
            r == 0 ==> even,
            big_value(*p) - 1 < pow2(bits as nat),
            r < bits || (r == 0 && bits == 0),
            big_value(two) == 2,
            big_value(zero) == 0,
        decreases big_value(tmp),
    {
        proof {
            // tmp is even and at least 1, hence at least 2.
            lemma_fundamental_div_mod(big_value(tmp) as int, 2);
        }
        let half = big_div(&tmp, &two);
        proof {
            let t = big_value(tmp);
            let h = big_value(half);
            assert(t == 2 * h);
            // One more factor of two moves from tmp into the power.
            lemma_pow2_adds(r as nat, 1);
            assert(pow2(1) == 2) by {
                lemma2_to64();
            }
            assert(pow2((r + 1) as nat) * h == pow2(r as nat) * t) by (nonlinear_arith)
                requires
                    pow2((r + 1) as nat) == pow2(r as nat) * 2,
                    t == 2 * h,
            ;
            // The exponent stays below the bit width of p - 1.
            assert(pow2((r + 1) as nat) <= pow2((r + 1) as nat) * h) by (nonlinear_arith)
                requires
                    h >= 1,
                    pow2((r + 1) as nat) >= 0,
            ;
            if r + 1 >= bits {
                if r + 1 > bits {
                    lemma_pow2_strictly_increases(bits as nat, (r + 1) as nat);
                }
                assert(false);
            }
        }
        tmp = half;
        r = r + 1;
        rem = big_mod(&tmp, &two);
        even = big_eq(&rem, &zero);
    }
    (r, tmp)
}

/// Run the Miller-Rabin check for one witness `a`: compute `a^d mod p` and
/// square it up to `r - 1` times, looking for `1` at the start or `p - 1`
/// anywhere.  The result is exactly `mr_witness_passes`.
pub fn mr_check_witness(p: &BigUint, d: &BigUint, r: u64, a: &BigUint) -> (res: bool)
    requires
        big_value(*p) >= 5,
        big_value(*p) - 1 == pow2(r as nat) * big_value(*d),
        big_value(*d) % 2 == 1,
        r >= 1,
    ensures
        res == mr_witness_passes(big_value(*p), big_value(*d), r as nat, big_value(*a)),
{
    let one = big_from_u64(1);
    let two = big_from_u64(2);
    let p_minus_1 = big_sub(p, &one);
    let mut x = big_modpow(a, d, p);
    proof {
        assert(pow2(0) == 1) by {
            lemma2_to64();
        }
    }
    if big_eq(&x, &one) {
        return true;
    }
    if big_eq(&x, &p_minus_1) {
        proof {
            let av = big_value(*a) as int;
            let dv = big_value(*d);
            let pv = big_value(*p) as int;
            assert(pow2(0) * dv == dv);
            assert(pow_mod(av, pow2(0) * dv, pv) == big_value(*p) - 1);
        }
        return true;
    }
    let mut j: u64 = 1;
    while j < r
        invariant
            1 <= j <= r,
            big_value(*p) >= 5,
            big_value(x) == pow_mod(
                big_value(*a) as int,
                pow2((j - 1) as nat) * big_value(*d),
                big_value(*p) as int,
            ),
            pow_mod(big_value(*a) as int, big_value(*d), big_value(*p) as int) != 1,
            forall|jj: nat|
                jj < j ==> pow_mod(
                    big_value(*a) as int,
                    pow2(jj) * big_value(*d),
                    big_value(*p) as int,
                ) != big_value(*p) - 1,
            big_value(p_minus_1) == big_value(*p) - 1,
            big_value(two) == 2,
        decreases r - j,
    {
        let x_next = big_modpow(&x, &two, p);
        proof {
            let av = big_value(*a) as int;
            let dv = big_value(*d);
            let pv = big_value(*p) as int;
            let e_old = pow2((j - 1) as nat) * dv;
            let e_new = pow2(j as nat) * dv;
            // One squaring doubles the exponent.
            lemma_pow2_adds((j - 1) as nat, 1);
            assert(pow2(1) == 2) by {
                lemma2_to64();
            }
            assert(e_new == e_old * 2) by (nonlinear_arith)
                requires
                    pow2(j as nat) == pow2((j - 1) as nat) * 2,
                    e_old == pow2((j - 1) as nat) * dv,
                    e_new == pow2(j as nat) * dv,
            ;
            lemma_pow_multiplies(av, e_old, 2);
            lemma_pow_mod_noop(pow(av, e_old), 2, pv);
            assert(big_value(x_next) == pow_mod(av, e_new, pv));
        }
        x = x_next;
        if big_eq(&x, &p_minus_1) {
            proof {
                let av = big_value(*a) as int;
                let dv = big_value(*d);
                let pv = big_value(*p) as int;
                assert(pow_mod(av, pow2(j as nat) * dv, pv) == big_value(*p) - 1);
            }
            return true;
        }
        j = j + 1;
    }
    false
}

/// Miller-Rabin primality test with the given number of random witnesses.
/// `2` and `3` always pass; values below `2` and even values above `2`
/// always fail; for odd `p >= 5` the verdict depends on the witnesses
/// drawn, and a false "prime" verdict for a composite has probability at
/// most `4^-rounds`.
pub fn miller_rabin(p: &BigUint, rounds: u64, rng: &mut ThreadRng) -> (res: bool)
    ensures
        big_value(*p) == 2 || big_value(*p) == 3 ==> res,
        big_value(*p) < 2 ==> !res,
        big_value(*p) > 3 && big_value(*p) % 2 == 0 ==> !res,
{
    let two = big_from_u64(2);
    let three = big_from_u64(3);
    let zero = big_from_u64(0);
    if big_eq(p, &two) || big_eq(p, &three) {
        return true;
    }
    if big_lt(p, &two) {
        return false;
    }
    let rem = big_mod(p, &two);
    if big_eq(&rem, &zero) {
        return false;
    }
    let (r_exp, d) = decompose(p);
    let p_minus_2 = big_sub(p, &two);
    let mut i: u64 = 0;
    while i < rounds
        invariant
            big_value(*p) >= 5,
            big_value(*p) - 1 == pow2(r_exp as nat) * big_value(d),
            big_value(d) % 2 == 1,
            r_exp >= 1,
            big_value(two) == 2,
            big_value(p_minus_2) == big_value(*p) - 2,
        decreases rounds - i,
    {
        let a = big_random_range(rng, &two, &p_minus_2);
        if !mr_check_witness(p, &d, r_exp, &a) {
            return false;
        }
        i = i + 1;
    }
    true
}

/// Primality test: Miller-Rabin with the given number of witness rounds.
pub fn is_prime(n: &BigUint, rounds: u64, rng: &mut ThreadRng) -> (res: bool)
    ensures
        big_value(*n) == 2 || big_value(*n) == 3 ==> res,
        big_value(*n) < 2 ==> !res,
        big_value(*n) > 3 && big_value(*n) % 2 == 0 ==> !res,
{
    miller_rabin(n, rounds, rng)
}

/// Safe-prime test: both `n` and `(n - 1) / 2` must pass the primality
/// test.  A positive verdict implies `n` is odd and at least 5.
pub fn is_safe_prime(n: &BigUint, rounds: u64, rng: &mut ThreadRng) -> (res: bool)
    ensures
        res ==> big_value(*n) >= 5 && big_value(*n) % 2 == 1,
        big_value(*n) < 5 ==> !res,
{
    let five = big_from_u64(5);
    if big_lt(n, &five) {
        return false;
    }
    let one = big_from_u64(1);
    let two = big_from_u64(2);
    let n_minus_1 = big_sub(n, &one);
    let half = big_div(&n_minus_1, &two);
    is_prime(&half, rounds, rng) && is_prime(n, rounds, rng)
}

/// Rejection sampling for a safe prime of exactly `bit_length` bits: draw
/// uniform integers of at most that many bits, discard those that fall
/// short of the requested width, and test the rest until one passes the
/// safe-prime test, giving up with `PrimeSearchExhausted` after
/// `max_tries` draws so a broken random source fails loudly instead of
/// looping forever.
pub fn generate_safe_prime(bit_length: u64, rounds: u64, max_tries: u64, rng: &mut ThreadRng) -> (res:
    Result<BigUint, PrimeError>)
    ensures
        res matches Ok(p) ==> big_value(p) < pow2(bit_length as nat) && pow2(
            (bit_length - 1) as nat,
        ) <= big_value(p) && big_value(p) >= 5 && big_value(p) % 2 == 1,
        res matches Err(e) ==> e == PrimeError::PrimeSearchExhausted,
{
    let mut i: u64 = 0;
    while i < max_tries
        invariant
            true,
        decreases max_tries - i,
    {
        let candidate = big_random_bits(rng, bit_length);
        let width = big_bits(&candidate);
        if width == bit_length && is_safe_prime(&candidate, rounds, rng) {
            return Ok(candidate);
        }
        i = i + 1;
    }
    Err(PrimeError::PrimeSearchExhausted)
}

/// Rejection sampling for a prime of exactly `bit_length` bits, with the
/// same bounded-retry shape as the safe-prime search.
pub fn generate_prime_of_bit_length(
    bit_length: u64,
    rounds: u64,
    max_tries: u64,
    rng: &mut ThreadRng,
) -> (res: Result<BigUint, PrimeError>)
    ensures
        res matches Ok(p) ==> big_value(p) < pow2(bit_length as nat) && pow2(
            (bit_length - 1) as nat,
        ) <= big_value(p) && big_value(p) >= 2,
        res matches Err(e) ==> e == PrimeError::PrimeSearchExhausted,
{
    let mut i: u64 = 0;
    while i < max_tries
        invariant
            true,
        decreases max_tries - i,
    {
        let candidate = big_random_bits(rng, bit_length);
        let width = big_bits(&candidate);
        if width == bit_length && is_prime(&candidate, rounds, rng) {
            return Ok(candidate);
        }
        i = i + 1;
    }
    Err(PrimeError::PrimeSearchExhausted)
}

} // verus!
