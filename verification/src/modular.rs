//! Arithmetic of residues: integers compared modulo a positive integer.

use vstd::arithmetic::div_mod::{
    lemma_add_mod_noop, lemma_mod_bound, lemma_mod_twice, lemma_mul_mod_noop, lemma_small_mod,
    lemma_sub_mod_noop,
};
use vstd::prelude::*;

verus! {

/// `a` and `b` leave the same remainder modulo `p`.
pub open spec fn cong(p: int, a: int, b: int) -> bool {
    a % p == b % p
}

/// `a` has a multiplicative inverse modulo `p`.
pub open spec fn is_unit(p: int, a: int) -> bool {
    exists|w: int| cong(p, #[trigger] (a * w), 1)
}

/// The residues modulo `p` form a field: each one but zero has an inverse.
pub open spec fn is_field(p: int) -> bool {
    &&& p > 1
    &&& forall|a: int| !cong(p, a, 0) ==> #[trigger] is_unit(p, a)
}

pub proof fn lemma_cong_add(p: int, a: int, b: int, c: int, d: int)
    requires
        p > 0,
        cong(p, a, b),
        cong(p, c, d),
    ensures
        cong(p, a + c, b + d),
{
    lemma_add_mod_noop(a, c, p);
    lemma_add_mod_noop(b, d, p);
}

pub proof fn lemma_cong_sub(p: int, a: int, b: int, c: int, d: int)
    requires
        p > 0,
        cong(p, a, b),
        cong(p, c, d),
    ensures
        cong(p, a - c, b - d),
{
    lemma_sub_mod_noop(a, c, p);
    lemma_sub_mod_noop(b, d, p);
}

pub proof fn lemma_cong_mul(p: int, a: int, b: int, c: int, d: int)
    requires
        p > 0,
        cong(p, a, b),
        cong(p, c, d),
    ensures
        cong(p, a * c, b * d),
{
    lemma_mul_mod_noop(a, c, p);
    lemma_mul_mod_noop(b, d, p);
}

/// A residue stands for itself.
pub proof fn lemma_cong_residue(p: int, a: int)
    requires
        p > 0,
    ensures
        cong(p, a % p, a),
        0 <= a % p < p,
{
    lemma_mod_twice(a, p);
    lemma_mod_bound(a, p);
}

/// Two residues that are congruent are equal.
pub proof fn lemma_residues_equal(p: int, a: int, b: int)
    requires
        0 <= a < p,
        0 <= b < p,
        cong(p, a, b),
    ensures
        a == b,
{
    lemma_small_mod(a as nat, p as nat);
    lemma_small_mod(b as nat, p as nat);
}

/// The remainder of a number below the modulus is that number.
pub proof fn lemma_residue_small(p: int, a: int)
    requires
        0 <= a < p,
    ensures
        a % p == a,
{
    lemma_small_mod(a as nat, p as nat);
}

/// A unit times a number is congruent to zero only if that number is.
pub proof fn lemma_unit_cancels(p: int, u: int, a: int)
    requires
        p > 0,
        is_unit(p, u),
        cong(p, u * a, 0),
    ensures
        cong(p, a, 0),
{
    let w = choose|w: int| cong(p, #[trigger] (u * w), 1);
    lemma_cong_mul(p, u * a, 0, w, w);
    lemma_cong_mul(p, u * w, 1, a, a);
    assert((u * a) * w == (u * w) * a) by (nonlinear_arith);
    assert(0 * w == 0 && 1 * a == a);
}

/// A product of two units is a unit.
pub proof fn lemma_unit_product(p: int, u: int, v: int)
    requires
        p > 0,
        is_unit(p, u),
        is_unit(p, v),
    ensures
        is_unit(p, u * v),
{
    let w = choose|w: int| cong(p, #[trigger] (u * w), 1);
    let z = choose|z: int| cong(p, #[trigger] (v * z), 1);
    lemma_cong_mul(p, u * w, 1, v * z, 1);
    assert((u * w) * (v * z) == (u * v) * (w * z)) by (nonlinear_arith);
    assert(cong(p, (u * v) * (w * z), 1));
}

/// One is a unit.
pub proof fn lemma_one_is_unit(p: int)
    ensures
        is_unit(p, 1),
{
    let one: int = 1;
    assert(cong(p, one * one, 1));
}

/// A unit is not congruent to zero.
pub proof fn lemma_unit_not_zero(p: int, u: int)
    requires
        p > 1,
        is_unit(p, u),
    ensures
        !cong(p, u, 0),
{
    let w = choose|w: int| cong(p, #[trigger] (u * w), 1);
    if cong(p, u, 0) {
        lemma_cong_mul(p, u, 0, w, w);
        assert(0 * w == 0);
        lemma_small_mod(1, p as nat);
        lemma_small_mod(0, p as nat);
    }
}

} // verus!
