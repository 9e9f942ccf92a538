//! Camenisch-Lysyanskaya-style multi-message signatures over an RSA-like
//! modulus built from two safe primes: setup, exponent choice, signing,
//! full verification, and selective disclosure of one of the two signed
//! messages.

use vstd::prelude::*;

verus! {

use num_bigint_dig::BigUint;
use rand::rngs::ThreadRng;
use vstd::arithmetic::power::pow;
use vstd::arithmetic::power::lemma_pow_adds;
use vstd::arithmetic::power2::pow2;
use vstd::arithmetic::div_mod::lemma_mod_division_less_than_divisor;
use vstd::arithmetic::div_mod::{
    lemma_mul_mod_noop_general, lemma_mul_mod_noop_left, lemma_mul_mod_noop_right,
};
use crate::bigint::{
    big_value, pow_mod, coprime, big_from_u64, big_clone, big_sub, big_mul, big_mod, big_modpow,
    big_eq, big_mod_inverse, big_random_below, big_random_range,
};
use crate::primes::{generate_safe_prime, generate_prime_of_bit_length};

#[derive(Clone, Copy, Debug, PartialEq, Eq, Structural)]
pub enum CLError {
    /// A rejection-sampling search for a prime used up its allowance.
    PrimeSearchExhausted,
    /// The chosen exponent has no inverse modulo phi(n); the caller must
    /// draw a fresh exponent and retry.
    NotInvertible,
}

/// An element is a quadratic residue when it is the reduced square of some
/// element.
pub open spec fn is_qr(x: nat, n: nat) -> bool {
    exists|w: nat| x == #[trigger] ((w * w) % n)
}

/// The RSA-like modulus `n = p * q`, kept with its two safe-prime factors.
pub struct Modulus {
    pub p: BigUint,
    pub q: BigUint,
    pub n: BigUint,
}

impl Modulus {
    /// Well-formedness: `n` is the product of the two odd factors, each at
    /// least 5.
    pub open spec fn wf(self) -> bool {
        &&& big_value(self.n) == big_value(self.p) * big_value(self.q)
        &&& big_value(self.p) >= 5
        &&& big_value(self.q) >= 5
        &&& big_value(self.p) % 2 == 1
        &&& big_value(self.q) % 2 == 1
    }

    /// Euler's totient of `n` for distinct prime factors:
    /// `(p - 1) * (q - 1)`.
    pub fn phi(&self) -> (r: BigUint)
        requires
            self.wf(),
        ensures
            big_value(r) == (big_value(self.p) - 1) * (big_value(self.q) - 1),
            big_value(r) > 0,
    {
        let one = big_from_u64(1);
        let p1 = big_sub(&self.p, &one);
        let q1 = big_sub(&self.q, &one);
        let r = big_mul(&p1, &q1);
        proof {
            assert((big_value(self.p) - 1) * (big_value(self.q) - 1) >= 16) by (nonlinear_arith)
                requires
                    big_value(self.p) >= 5,
                    big_value(self.q) >= 5,
            ;
        }
        r
    }
}

/// The public bases of the scheme: random quadratic residues modulo `n`.
pub struct CLPublicParameters {
    pub n: BigUint,
    pub a: BigUint,
    pub a2: BigUint,
    pub b: BigUint,
    pub c: BigUint,
}

impl CLPublicParameters {
    /// Well-formedness: the modulus is nontrivial and every base is a
    /// reduced quadratic residue.
    pub open spec fn wf(self) -> bool {
        &&& big_value(self.n) > 1
        &&& big_value(self.a) < big_value(self.n)
        &&& big_value(self.a2) < big_value(self.n)
        &&& big_value(self.b) < big_value(self.n)
        &&& big_value(self.c) < big_value(self.n)
        &&& is_qr(big_value(self.a), big_value(self.n))
        &&& is_qr(big_value(self.a2), big_value(self.n))
        &&& is_qr(big_value(self.b), big_value(self.n))
        &&& is_qr(big_value(self.c), big_value(self.n))
    }

    /// The value every verification compares against:
    /// `a^m1 * a2^m2 * b^s * c mod n`.
    pub open spec fn base_val(self, m1: nat, m2: nat, s: nat) -> int {
        (pow(big_value(self.a) as int, m1) * pow(big_value(self.a2) as int, m2) * pow(
            big_value(self.b) as int,
            s,
        ) * (big_value(self.c) as int)) % (big_value(self.n) as int)
    }

    /// The redacted commitment of selective disclosure:
    /// `a2^m2 * b^(s - offset) mod n`, which keeps the hidden message
    /// bound while the offset is revealed.
    pub open spec fn hidden_val(self, m2: nat, s_minus_offset: nat) -> int {
        (pow(big_value(self.a2) as int, m2) * pow(big_value(self.b) as int, s_minus_offset)) % (
        big_value(self.n) as int)
    }

    /// The value selective verification compares against:
    /// `c_hidden * b^s_prime * a^m1 * c mod n`.
    pub open spec fn selective_val(self, c_hidden: nat, m1: nat, s_prime: nat) -> int {
        ((c_hidden as int) * pow(big_value(self.b) as int, s_prime) * pow(
            big_value(self.a) as int,
            m1,
        ) * (big_value(self.c) as int)) % (big_value(self.n) as int)
    }
}

/// A signature on two messages: `v^e == a^m1 * a2^m2 * b^s * c mod n` for
/// a correctly produced signature.
pub struct CLSignature {
    pub s: BigUint,
    pub e: BigUint,
    pub v: BigUint,
}

/// Draw one random quadratic residue modulo `n`: square a uniform element.
fn random_qr(n: &BigUint, rng: &mut ThreadRng) -> (r: BigUint)
    requires
        big_value(*n) > 1,
    ensures
        big_value(r) < big_value(*n),
        is_qr(big_value(r), big_value(*n)),
{
    let x = big_random_below(rng, n);
    let sq = big_mul(&x, &x);
    let r = big_mod(&sq, n);
    proof {
        let w = big_value(x);
        let nv = big_value(*n);
        assert(big_value(r) == (w * w) % nv);
        lemma_mod_division_less_than_divisor((w * w) as int, nv as int);
    }
    r
}

/// Key generation: two safe primes of `2k` bits each form the modulus, the
/// four public bases are random quadratic residues, and the signing value
/// `s` is uniform in `[2n, 3n)`.
pub fn setup(k: u64, rounds: u64, max_tries: u64, rng: &mut ThreadRng) -> (res: Result<
    (Modulus, CLPublicParameters, BigUint),
    CLError,
>)
    requires
        k <= 0x7fffffffffffffffu64,
    ensures
        res matches Ok(t) ==> t.0.wf() && t.1.wf() && big_value(t.1.n) == big_value(t.0.n)
            && big_value(t.0.p) < pow2((2 * k) as nat) && big_value(t.0.q) < pow2((2 * k) as nat)
            && pow2((2 * k - 1) as nat) <= big_value(t.0.p) && pow2((2 * k - 1) as nat)
            <= big_value(t.0.q) && 2 * big_value(t.0.n) <= big_value(t.2) < 3 * big_value(t.0.n),
        res matches Err(e) ==> e == CLError::PrimeSearchExhausted,
{
    let p = match generate_safe_prime(2 * k, rounds, max_tries, rng) {
        Ok(p) => p,
        Err(_) => {
            return Err(CLError::PrimeSearchExhausted);
        },
    };
    let q = match generate_safe_prime(2 * k, rounds, max_tries, rng) {
        Ok(q) => q,
        Err(_) => {
            return Err(CLError::PrimeSearchExhausted);
        },
    };
    let n = big_mul(&p, &q);
    proof {
        assert(big_value(n) >= 25) by (nonlinear_arith)
            requires
                big_value(n) == big_value(p) * big_value(q),
                big_value(p) >= 5,
                big_value(q) >= 5,
        ;
    }
    let a = random_qr(&n, rng);
    let a2 = random_qr(&n, rng);
    let b = random_qr(&n, rng);
    let c = random_qr(&n, rng);
    let two = big_from_u64(2);
    let three = big_from_u64(3);
    let two_n = big_mul(&two, &n);
    let three_n = big_mul(&three, &n);
    let s = big_random_range(rng, &two_n, &three_n);
    let modulus = Modulus { p, q, n: big_clone(&n) };
    let params = CLPublicParameters { n, a, a2, b, c };
    Ok((modulus, params, s))
}

/// Choose the signature exponent: a prime of `m + 2` bits that is
/// invertible modulo `phi`, returned together with its inverse.  Draws are
/// repeated until one is invertible, up to `max_tries` rounds.
pub fn choose_exponent(m: u64, phi: &BigUint, rounds: u64, max_tries: u64, rng: &mut ThreadRng) -> (
    res: Result<(BigUint, BigUint), CLError>)
    requires
        big_value(*phi) > 0,
        m <= 0xfffffffffffffffdu64,
    ensures
        res matches Ok(pair) ==> (big_value(pair.0) * big_value(pair.1)) % big_value(*phi)
            == 1nat % big_value(*phi) && coprime(big_value(pair.0), big_value(*phi))
            && big_value(pair.0) < pow2((m + 2) as nat) && pow2((m + 1) as nat) <= big_value(
            pair.0,
        ) && big_value(pair.0) >= 2,
        res matches Err(e) ==> e == CLError::PrimeSearchExhausted,
{
    let mut i: u64 = 0;
    while i < max_tries
        invariant
            big_value(*phi) > 0,
            m <= 0xfffffffffffffffdu64,
        decreases max_tries - i,
    {
        match generate_prime_of_bit_length(m + 2, rounds, max_tries, rng) {
            Ok(e) => {
                match big_mod_inverse(&e, phi) {
                    Some(inv) => {
                        return Ok((e, inv));
                    },
                    None => {},
                }
            },
            Err(_) => {
                return Err(CLError::PrimeSearchExhausted);
            },
        }
        i = i + 1;
    }
    Err(CLError::PrimeSearchExhausted)
}

/// Produce the signature value from an already computed inverse of the
/// exponent: `v = (a^m1 * a2^m2 * b^s * c)^e_inv mod n`.
pub fn sign_with_inverse(
    m1: &BigUint,
    m2: &BigUint,
    params: &CLPublicParameters,
    s: &BigUint,
    e: &BigUint,
    e_inv: &BigUint,
) -> (res: CLSignature)
    requires
        params.wf(),
    ensures
        big_value(res.s) == big_value(*s),
        big_value(res.e) == big_value(*e),
        big_value(res.v) == pow_mod(
            params.base_val(big_value(*m1), big_value(*m2), big_value(*s)),
            big_value(*e_inv),
            big_value(params.n) as int,
        ),
{
    let base = combined_base(m1, m2, params, s);
    let v = big_modpow(&base, e_inv, &params.n);
    proof {
        let nv = big_value(params.n) as int;
        let x = params.base_val(big_value(*m1), big_value(*m2), big_value(*s));
        let prod = pow(big_value(params.a) as int, big_value(*m1)) * pow(
            big_value(params.a2) as int,
            big_value(*m2),
        ) * pow(big_value(params.b) as int, big_value(*s)) * (big_value(params.c) as int);
        // The combined base is already reduced, so raising it and reducing
        // is exactly pow_mod of the spec-level base.
        vstd::arithmetic::power::lemma_pow_mod_noop(x, big_value(*e_inv), nv);
        lemma_mod_division_less_than_divisor(prod, nv);
        vstd::arithmetic::div_mod::lemma_small_mod(x as nat, big_value(params.n));
        assert(x % nv == x);
    }
    CLSignature { s: big_clone(s), e: big_clone(e), v }
}

/// Sign the two messages: compute the inverse of `e` modulo `phi` and
/// raise the combined base to it.  Fails with `NotInvertible` when `e` has
/// no inverse; the caller must then draw a fresh exponent.
pub fn sign(
    m1: &BigUint,
    m2: &BigUint,
    params: &CLPublicParameters,
    s: &BigUint,
    e: &BigUint,
    phi: &BigUint,
) -> (res: Result<CLSignature, CLError>)
    requires
        params.wf(),
        big_value(*phi) > 0,
    ensures
        res matches Ok(sig) ==> coprime(big_value(*e), big_value(*phi)) && big_value(sig.s)
            == big_value(*s) && big_value(sig.e) == big_value(*e) && (exists|iv: nat|
            (big_value(*e) * iv) % big_value(*phi) == 1nat % big_value(*phi) && big_value(sig.v)
                == pow_mod(
                params.base_val(big_value(*m1), big_value(*m2), big_value(*s)),
                iv,
                big_value(params.n) as int,
            )),
        res matches Err(err) ==> err == CLError::NotInvertible && !coprime(
            big_value(*e),
            big_value(*phi),
        ),
{
    match big_mod_inverse(e, phi) {
        None => Err(CLError::NotInvertible),
        Some(inv) => {
            let sig = sign_with_inverse(m1, m2, params, s, e, &inv);
            proof {
                let iv = big_value(inv);
                assert((big_value(*e) * iv) % big_value(*phi) == 1nat % big_value(*phi));
            }
            Ok(sig)
        },
    }
}

/// Compute `a^m1 * a2^m2 * b^s * c mod n`, reducing after each factor.
fn combined_base(
    m1: &BigUint,
    m2: &BigUint,
    params: &CLPublicParameters,
    s: &BigUint,
) -> (res: BigUint)
    requires
        params.wf(),
    ensures
        big_value(res) == params.base_val(big_value(*m1), big_value(*m2), big_value(*s)),
{
    let t1 = big_modpow(&params.a, m1, &params.n);
    let t2 = big_modpow(&params.a2, m2, &params.n);
    let t3 = big_modpow(&params.b, s, &params.n);
    let u1p = big_mul(&t1, &t2);
    let u1 = big_mod(&u1p, &params.n);
    let u2p = big_mul(&u1, &t3);
    let u2 = big_mod(&u2p, &params.n);
    let u3p = big_mul(&u2, &params.c);
    let u3 = big_mod(&u3p, &params.n);
    proof {
        let nv = big_value(params.n) as int;
        let pa = pow(big_value(params.a) as int, big_value(*m1));
        let pa2 = pow(big_value(params.a2) as int, big_value(*m2));
        let pb = pow(big_value(params.b) as int, big_value(*s));
        let cv = big_value(params.c) as int;
        lemma_mul_mod_noop_general(pa, pa2, nv);
        lemma_mul_mod_noop_general(pa * pa2, pb, nv);
        lemma_mul_mod_noop_left(pa * pa2 * pb, cv, nv);
    }
    u3
}

/// Full verification: check `v^e == a^m1 * a2^m2 * b^s * c mod n`.
pub fn verify_full(
    sig: &CLSignature,
    m1: &BigUint,
    m2: &BigUint,
    params: &CLPublicParameters,
) -> (res: bool)
    requires
        params.wf(),
    ensures
        res == (pow_mod(
            big_value(sig.v) as int,
            big_value(sig.e),
            big_value(params.n) as int,
        ) == params.base_val(big_value(*m1), big_value(*m2), big_value(sig.s))),
{
    let lhs = big_modpow(&sig.v, &sig.e, &params.n);
    let rhs = combined_base(m1, m2, params, &sig.s);
    big_eq(&lhs, &rhs)
}

/// Selective disclosure: blind the signing value by `offset` and fold the
/// hidden message into the redacted commitment
/// `C = a2^m2 * b^(s - offset) mod n`.  The pair `(C, offset)` is what the
/// holder discloses beside `m1`, `e` and `v`; the same quantity blinds `s`
/// and is revealed, by construction.
pub fn reveal_subset(
    sig: &CLSignature,
    params: &CLPublicParameters,
    m2: &BigUint,
    offset: &BigUint,
) -> (res: (BigUint, BigUint))
    requires
        params.wf(),
        big_value(*offset) <= big_value(sig.s),
    ensures
        big_value(res.0) == params.hidden_val(
            big_value(*m2),
            (big_value(sig.s) - big_value(*offset)) as nat,
        ),
        big_value(res.1) == big_value(*offset),
{
    let t2 = big_modpow(&params.a2, m2, &params.n);
    let diff = big_sub(&sig.s, offset);
    let t3 = big_modpow(&params.b, &diff, &params.n);
    let up = big_mul(&t2, &t3);
    let u = big_mod(&up, &params.n);
    proof {
        let nv = big_value(params.n) as int;
        let pa2 = pow(big_value(params.a2) as int, big_value(*m2));
        let pb = pow(
            big_value(params.b) as int,
            (big_value(sig.s) - big_value(*offset)) as nat,
        );
        lemma_mul_mod_noop_general(pa2, pb, nv);
    }
    (u, big_clone(offset))
}

/// Selective verification: check
/// `v^e == C * b^s_prime * a^m1 * c mod n` over the disclosed message
/// only; the hidden one stays bound inside `C`.
pub fn verify_selective(
    c_hidden: &BigUint,
    m1: &BigUint,
    s_prime: &BigUint,
    e: &BigUint,
    v: &BigUint,
    params: &CLPublicParameters,
) -> (res: bool)
    requires
        params.wf(),
    ensures
        res == (pow_mod(big_value(*v) as int, big_value(*e), big_value(params.n) as int)
            == params.selective_val(big_value(*c_hidden), big_value(*m1), big_value(*s_prime))),
{
    let tb = big_modpow(&params.b, s_prime, &params.n);
    let ta = big_modpow(&params.a, m1, &params.n);
    let u1p = big_mul(c_hidden, &tb);
    let u1 = big_mod(&u1p, &params.n);
    let u2p = big_mul(&u1, &ta);
    let u2 = big_mod(&u2p, &params.n);
    let u3p = big_mul(&u2, &params.c);
    let u3 = big_mod(&u3p, &params.n);
    let lhs = big_modpow(v, e, &params.n);
    proof {
        let nv = big_value(params.n) as int;
        let ch = big_value(*c_hidden) as int;
        let pb = pow(big_value(params.b) as int, big_value(*s_prime));
        let pa = pow(big_value(params.a) as int, big_value(*m1));
        let cv = big_value(params.c) as int;
        lemma_mul_mod_noop_right(ch, pb, nv);
        lemma_mul_mod_noop_general(ch * pb, pa, nv);
        lemma_mul_mod_noop_left(ch * pb * pa, cv, nv);
    }
    big_eq(&lhs, &u3)
}

/// Law (selective disclosure completeness): whenever full verification
/// accepts a signature on `(m1, m2)`, selective verification accepts the
/// redacted commitment produced by `reveal_subset` together with the
/// disclosed `m1` and the revealed offset.  The hidden factor
/// `a2^m2 * b^(s-offset)` recombines with `b^offset` to the full base.
pub proof fn lemma_selective_disclosure_completeness(
    a: nat,
    a2: nat,
    b: nat,
    c: nat,
    n: nat,
    m1: nat,
    m2: nat,
    s: nat,
    offset: nat,
    v: nat,
    e: nat,
)
    requires
        n > 1,
        offset <= s,
        pow_mod(v as int, e, n as int) == (pow(a as int, m1) * pow(a2 as int, m2) * pow(
            b as int,
            s,
        ) * (c as int)) % (n as int),
    ensures
        pow_mod(v as int, e, n as int) == ((((pow(a2 as int, m2) * pow(
            b as int,
            (s - offset) as nat,
        )) % (n as int)) * pow(b as int, offset) * pow(a as int, m1) * (c as int)) % (n as int)),
{
    let nv = n as int;
    let pa = pow(a as int, m1);
    let pa2 = pow(a2 as int, m2);
    let pbs = pow(b as int, s);
    let pbr = pow(b as int, offset);
    let pbd = pow(b as int, (s - offset) as nat);
    let cv = c as int;
    let x = pa2 * pbd;
    // b^(s-offset) * b^offset == b^s.
    lemma_pow_adds(b as int, (s - offset) as nat, offset);
    assert(pbd * pbr == pbs);
    // Drop the inner reduction of the redacted commitment.
    assert(((x % nv) * pbr) * pa * cv == (x % nv) * (pbr * pa * cv)) by (nonlinear_arith);
    lemma_mul_mod_noop_left(x, pbr * pa * cv, nv);
    // Reassociate into the full base product.
    assert(x * (pbr * pa * cv) == pa * pa2 * pbs * cv) by (nonlinear_arith)
        requires
            x == pa2 * pbd,
            pbd * pbr == pbs,
    ;
}

} // verus!
