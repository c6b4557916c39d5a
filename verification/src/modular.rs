//! Arithmetic modulo the group order.
use vstd::prelude::*;
use vstd::arithmetic::div_mod::{
    lemma_fundamental_div_mod, lemma_fundamental_div_mod_converse, lemma_mod_bound, lemma_small_mod,
};
use crate::curve::curve_order;

verus! {

/// Two numbers that differ by a multiple of the group order.
pub open spec fn congruent(a: int, b: int) -> bool {
    exists|q: int| #[trigger] differ_by(a, b, q)
}

/// `a` exceeds `b` by `q` times the group order.
pub open spec fn differ_by(a: int, b: int, q: int) -> bool {
    a == b + q * (curve_order() as int)
}

pub proof fn lemma_mod_congruent(a: int)
    ensures
        congruent(a % (curve_order() as int), a),
        congruent(a, a % (curve_order() as int)),
        0 <= a % (curve_order() as int) < curve_order(),
{
    let n = curve_order() as int;
    lemma_fundamental_div_mod(a, n);
    lemma_mod_bound(a, n);
    let q = a / n;
    assert(n * q == q * n) by (nonlinear_arith);
    assert((-q) * n == -(q * n)) by (nonlinear_arith);
    assert(differ_by(a % n, a, -q));
    assert(differ_by(a, a % n, q));
}

pub proof fn lemma_congruent_refl(a: int)
    ensures
        congruent(a, a),
{
    assert(differ_by(a, a, 0));
}

pub proof fn lemma_congruent_sym(a: int, b: int)
    requires
        congruent(a, b),
    ensures
        congruent(b, a),
{
    let n = curve_order() as int;
    let q = choose|q: int| #[trigger] differ_by(a, b, q);
    assert((-q) * n == -(q * n)) by (nonlinear_arith);
    assert(differ_by(b, a, -q));
}

pub proof fn lemma_congruent_trans(a: int, b: int, c: int)
    requires
        congruent(a, b),
        congruent(b, c),
    ensures
        congruent(a, c),
{
    let n = curve_order() as int;
    let q = choose|q: int| #[trigger] differ_by(a, b, q);
    let r = choose|r: int| #[trigger] differ_by(b, c, r);
    assert((q + r) * n == q * n + r * n) by (nonlinear_arith);
    assert(differ_by(a, c, q + r));
}

pub proof fn lemma_congruent_add(a: int, b: int, c: int, d: int)
    requires
        congruent(a, b),
        congruent(c, d),
    ensures
        congruent(a + c, b + d),
{
    let n = curve_order() as int;
    let q = choose|q: int| #[trigger] differ_by(a, b, q);
    let r = choose|r: int| #[trigger] differ_by(c, d, r);
    assert((q + r) * n == q * n + r * n) by (nonlinear_arith);
    assert(differ_by(a + c, b + d, q + r));
}

proof fn lemma_product(a: int, b: int, c: int, d: int, q: int, r: int, n: int)
    requires
        a == b + q * n,
        c == d + r * n,
    ensures
        a * c == b * d + (b * r + q * d + q * r * n) * n,
{
    assert((b + q * n) * c == b * c + (q * n) * c) by (nonlinear_arith);
    assert(b * (d + r * n) == b * d + (b * r) * n) by (nonlinear_arith);
    assert((q * n) * (d + r * n) == (q * d) * n + (q * r * n) * n) by (nonlinear_arith);
    assert((b * r) * n + (q * d) * n + (q * r * n) * n == (b * r + q * d + q * r * n) * n)
        by (nonlinear_arith);
}

pub proof fn lemma_congruent_mul(a: int, b: int, c: int, d: int)
    requires
        congruent(a, b),
        congruent(c, d),
    ensures
        congruent(a * c, b * d),
{
    let n = curve_order() as int;
    let q = choose|q: int| #[trigger] differ_by(a, b, q);
    let r = choose|r: int| #[trigger] differ_by(c, d, r);
    let t = b * r + q * d + q * r * n;
    lemma_product(a, b, c, d, q, r, n);
    assert(differ_by(a * c, b * d, t));
}

/// The group order itself counts as zero.
pub proof fn lemma_order_minus(a: int)
    ensures
        congruent(curve_order() - a, -a),
{
    assert(differ_by(curve_order() - a, -a, 1));
}

/// Congruent numbers have the same remainder.
pub proof fn lemma_congruent_same_mod(a: int, b: int)
    requires
        congruent(a, b),
    ensures
        a % (curve_order() as int) == b % (curve_order() as int),
{
    let n = curve_order() as int;
    let q = choose|q: int| #[trigger] differ_by(a, b, q);
    lemma_fundamental_div_mod(b, n);
    lemma_mod_bound(b, n);
    let r = b % n;
    let d = b / n + q;
    assert(a == n * d + r) by (nonlinear_arith)
        requires
            a == b + q * n,
            b == n * (b / n) + r,
            d == b / n + q,
    ;
    assert(a == d * n + r) by (nonlinear_arith)
        requires
            a == n * d + r,
    ;
    lemma_fundamental_div_mod_converse(a, n, d, r);
}

/// Congruent numbers below the group order are equal.
pub proof fn lemma_congruent_small(a: int, b: int)
    requires
        congruent(a, b),
        0 <= a < curve_order(),
        0 <= b < curve_order(),
    ensures
        a == b,
{
    lemma_congruent_same_mod(a, b);
    lemma_small_mod(a as nat, curve_order());
    lemma_small_mod(b as nat, curve_order());
}

} // verus!
