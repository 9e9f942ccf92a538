//! Arithmetic in the scalar field of the prime-order group: all commitment
//! and proof-of-knowledge contracts are stated over residues modulo the
//! group order.

use vstd::prelude::*;

verus! {

use vstd::arithmetic::div_mod::{
    lemma_fundamental_div_mod,
    lemma_mod_multiples_basic,
    lemma_mod_division_less_than_divisor,
};

/// The order of the prime-order group: 2^252 + 27742317777372353535851937790883648493.
pub open spec fn group_order() -> nat {
    7237005577332262213973186563042994240857116359379907606001950938285454250989nat
}

/// Addition of two residues, reduced modulo the group order.
pub open spec fn add_l(a: nat, b: nat) -> nat {
    (a + b) % group_order()
}

/// Product of two residues, reduced modulo the group order.
pub open spec fn mul_l(a: nat, b: nat) -> nat {
    (a * b) % group_order()
}

/// Difference of two residues, reduced modulo the group order.
pub open spec fn sub_l(a: nat, b: nat) -> nat {
    (((a % group_order() + group_order()) - (b % group_order())) as nat) % group_order()
}

/// Congruence modulo the group order, over unbounded integers.
pub open spec fn cong(x: int, y: int) -> bool {
    (x - y) % (group_order() as int) == 0
}

/// Two integers that differ by a multiple of the group order are congruent.
pub proof fn lemma_cong_intro(x: int, y: int, k: int)
    requires
        x - y == k * (group_order() as int),
    ensures
        cong(x, y),
{
    lemma_mod_multiples_basic(k, group_order() as int);
}

/// From a congruence, produce the multiple of the group order that separates
/// the two sides.
pub proof fn lemma_cong_elim(x: int, y: int) -> (k: int)
    requires
        cong(x, y),
    ensures
        x - y == k * (group_order() as int),
{
    let l = group_order() as int;
    lemma_fundamental_div_mod(x - y, l);
    let k = (x - y) / l;
    assert(x - y == k * l) by (nonlinear_arith)
        requires
            x - y == l * k + (x - y) % l,
            (x - y) % l == 0,
    ;
    k
}

pub proof fn lemma_cong_refl(x: int)
    ensures
        cong(x, x),
{
    lemma_cong_intro(x, x, 0);
}

pub proof fn lemma_cong_sym(x: int, y: int)
    requires
        cong(x, y),
    ensures
        cong(y, x),
{
    let l = group_order() as int;
    let k = lemma_cong_elim(x, y);
    assert(y - x == (-k) * l) by (nonlinear_arith)
        requires
            x - y == k * l,
    ;
    lemma_cong_intro(y, x, -k);
}

pub proof fn lemma_cong_trans(x: int, y: int, z: int)
    requires
        cong(x, y),
        cong(y, z),
    ensures
        cong(x, z),
{
    let l = group_order() as int;
    let k1 = lemma_cong_elim(x, y);
    let k2 = lemma_cong_elim(y, z);
    assert(x - z == (k1 + k2) * l) by (nonlinear_arith)
        requires
            x - y == k1 * l,
            y - z == k2 * l,
    ;
    lemma_cong_intro(x, z, k1 + k2);
}

/// Congruence is preserved by addition.
pub proof fn lemma_cong_add(x1: int, y1: int, x2: int, y2: int)
    requires
        cong(x1, y1),
        cong(x2, y2),
    ensures
        cong(x1 + x2, y1 + y2),
{
    let l = group_order() as int;
    let k1 = lemma_cong_elim(x1, y1);
    let k2 = lemma_cong_elim(x2, y2);
    assert((x1 + x2) - (y1 + y2) == (k1 + k2) * l) by (nonlinear_arith)
        requires
            x1 - y1 == k1 * l,
            x2 - y2 == k2 * l,
    ;
    lemma_cong_intro(x1 + x2, y1 + y2, k1 + k2);
}

/// Congruence is preserved by subtraction.
pub proof fn lemma_cong_sub(x1: int, y1: int, x2: int, y2: int)
    requires
        cong(x1, y1),
        cong(x2, y2),
    ensures
        cong(x1 - x2, y1 - y2),
{
    let l = group_order() as int;
    let k1 = lemma_cong_elim(x1, y1);
    let k2 = lemma_cong_elim(x2, y2);
    assert((x1 - x2) - (y1 - y2) == (k1 - k2) * l) by (nonlinear_arith)
        requires
            x1 - y1 == k1 * l,
            x2 - y2 == k2 * l,
    ;
    lemma_cong_intro(x1 - x2, y1 - y2, k1 - k2);
}

/// Congruence is preserved by multiplication.
pub proof fn lemma_cong_mul(x1: int, y1: int, x2: int, y2: int)
    requires
        cong(x1, y1),
        cong(x2, y2),
    ensures
        cong(x1 * x2, y1 * y2),
{
    let l = group_order() as int;
    let k1 = lemma_cong_elim(x1, y1);
    let k2 = lemma_cong_elim(x2, y2);
    assert(x1 * x2 - y1 * y2 == (k1 * x2 + y1 * k2) * l) by (nonlinear_arith)
        requires
            x1 - y1 == k1 * l,
            x2 - y2 == k2 * l,
    ;
    lemma_cong_intro(x1 * x2, y1 * y2, k1 * x2 + y1 * k2);
}

/// Two congruent residues below the group order are equal.
pub proof fn lemma_cong_unique(x: int, y: int)
    requires
        cong(x, y),
        0 <= x < group_order(),
        0 <= y < group_order(),
    ensures
        x == y,
{
    let l = group_order() as int;
    let k = lemma_cong_elim(x, y);
    assert(x == y) by (nonlinear_arith)
        requires
            x - y == k * l,
            0 <= x < l,
            0 <= y < l,
            l > 0,
    ;
}

/// Reducing an integer modulo the group order keeps it congruent to itself.
pub proof fn lemma_cong_mod(x: int)
    ensures
        cong(x % (group_order() as int), x),
        0 <= x % (group_order() as int) < group_order(),
{
    let l = group_order() as int;
    lemma_fundamental_div_mod(x, l);
    let q = x / l;
    assert(x % l - x == (-q) * l) by (nonlinear_arith)
        requires
            x == l * q + x % l,
    ;
    lemma_cong_intro(x % l, x, -q);
    lemma_mod_division_less_than_divisor(x, l);
}

/// The reduced sum is congruent to the plain sum, and lies below the order.
pub proof fn lemma_add_l_cong(a: nat, b: nat)
    ensures
        cong(add_l(a, b) as int, (a + b) as int),
        add_l(a, b) < group_order(),
{
    lemma_cong_mod((a + b) as int);
    assert(add_l(a, b) as int == ((a + b) as int) % (group_order() as int));
}

/// The reduced product is congruent to the plain product, and lies below the
/// order.
pub proof fn lemma_mul_l_cong(a: nat, b: nat)
    ensures
        cong(mul_l(a, b) as int, (a * b) as int),
        mul_l(a, b) < group_order(),
{
    lemma_cong_mod((a * b) as int);
    assert(mul_l(a, b) as int == ((a * b) as int) % (group_order() as int));
}

/// The reduced difference is congruent to the plain (integer) difference,
/// and lies below the order.
pub proof fn lemma_sub_l_cong(a: nat, b: nat)
    ensures
        cong(sub_l(a, b) as int, a - b),
        sub_l(a, b) < group_order(),
{
    let l = group_order() as int;
    let inner = (a % group_order() + group_order()) - (b % group_order());
    lemma_cong_mod(a as int);
    lemma_cong_mod(b as int);
    assert(0 <= inner);
    lemma_cong_mod(inner);
    assert(sub_l(a, b) as int == inner % l);
    // inner = (a mod L) + L - (b mod L) is congruent to a - b.
    let ka = lemma_cong_elim((a as int) % l, a as int);
    let kb = lemma_cong_elim((b as int) % l, b as int);
    assert(inner - (a - b) == (ka - kb + 1) * l) by (nonlinear_arith)
        requires
            (a as int) % l - a == ka * l,
            (b as int) % l - b == kb * l,
            inner == (a as int) % l + l - (b as int) % l,
    ;
    lemma_cong_intro(inner, a - b, ka - kb + 1);
    lemma_cong_trans(sub_l(a, b) as int, inner, a - b);
}

} // verus!
