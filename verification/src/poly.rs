//! Univariate polynomials as sequences of coefficients, lowest degree first.

use vstd::arithmetic::mul::{
    lemma_mul_is_associative, lemma_mul_is_distributive_add,
    lemma_mul_is_distributive_add_other_way,
};
use vstd::arithmetic::power::{lemma_pow0, pow};
use vstd::prelude::*;

use crate::modular::{
    cong, is_unit, lemma_cong_add, lemma_cong_mul, lemma_cong_residue, lemma_cong_sub,
    lemma_unit_cancels,
};

verus! {

/// The coefficient of `x^i`, which is zero past the end of the sequence.
pub open spec fn coeff(c: Seq<int>, i: int) -> int {
    if 0 <= i < c.len() {
        c[i]
    } else {
        0
    }
}

/// The sum of the terms of `c` of degree below `n`, at the point `x`.
pub open spec fn eval_prefix(c: Seq<int>, x: int, n: nat) -> int
    decreases n,
{
    if n == 0 {
        0
    } else {
        eval_prefix(c, x, (n - 1) as nat) + coeff(c, n - 1) * pow(x, (n - 1) as nat)
    }
}

/// The value of the polynomial `c` at the point `x`.
pub open spec fn eval(c: Seq<int>, x: int) -> int {
    eval_prefix(c, x, c.len())
}

/// The first `n` summands of the coefficient of `x^k` in the product of `a` and `b`.
pub open spec fn product_coeff(a: Seq<int>, b: Seq<int>, k: int, n: nat) -> int
    decreases n,
{
    if n == 0 {
        0
    } else {
        product_coeff(a, b, k, (n - 1) as nat) + coeff(a, n - 1) * coeff(b, k - (n - 1))
    }
}

/// The product of two polynomials over the integers.
pub open spec fn product(a: Seq<int>, b: Seq<int>) -> Seq<int> {
    if a.len() == 0 || b.len() == 0 {
        Seq::empty()
    } else {
        Seq::new((a.len() + b.len() - 1) as nat, |k: int| product_coeff(a, b, k, (k + 1) as nat))
    }
}

/// Each coefficient of `c` reduced modulo `p`.
pub open spec fn reduced(p: int, c: Seq<int>) -> Seq<int> {
    Seq::new(c.len(), |i: int| c[i] % p)
}

/// `c` without the zeros at its end.
pub open spec fn trimmed(c: Seq<int>) -> Seq<int>
    decreases c.len(),
{
    if c.len() > 0 && c.last() == 0 {
        trimmed(c.drop_last())
    } else {
        c
    }
}

/// Each coefficient of `c` is zero.
pub open spec fn all_zero(c: Seq<int>) -> bool {
    forall|i: int| 0 <= i < c.len() ==> #[trigger] c[i] == 0
}

/// Each coefficient of `c` is a residue modulo `p`.
pub open spec fn canonical(p: int, c: Seq<int>) -> bool {
    forall|i: int| 0 <= i < c.len() ==> 0 <= #[trigger] c[i] < p
}

/// Terms past the end add nothing.
pub proof fn lemma_eval_past_end(c: Seq<int>, x: int, n: nat)
    requires
        n >= c.len(),
    ensures
        eval_prefix(c, x, n) == eval(c, x),
    decreases n,
{
    if n > c.len() {
        lemma_eval_past_end(c, x, (n - 1) as nat);
        assert(coeff(c, n - 1) * pow(x, (n - 1) as nat) == 0);
    }
}

/// The value of a polynomial by way of its lowest coefficient: that coefficient, plus `x` times the
/// value of the rest. A polynomial without coefficients is zero everywhere.
pub proof fn lemma_eval_by_lowest(a: int, c: Seq<int>, x: int)
    ensures
        eval(Seq::empty(), x) == 0,
        eval(seq![a] + c, x) == a + x * eval(c, x),
{
    lemma_prefix_by_lowest(a, c, x, c.len());
}

proof fn lemma_prefix_by_lowest(a: int, c: Seq<int>, x: int, n: nat)
    ensures
        eval_prefix(seq![a] + c, x, n + 1) == a + x * eval_prefix(c, x, n),
    decreases n,
{
    let d = seq![a] + c;
    if n == 0 {
        lemma_pow0(x);
        reveal_with_fuel(eval_prefix, 2);
        assert(coeff(d, 0) == a && a * 1 == a && x * 0 == 0);
    } else {
        let m = (n - 1) as nat;
        lemma_prefix_by_lowest(a, c, x, m);
        let (e, q) = (coeff(c, m as int), pow(x, m));
        assert(coeff(d, n as int) == e);
        assert(pow(x, n) == x * q) by {
            reveal(pow);
        }
        assert(e * (x * q) == x * (e * q)) by (nonlinear_arith);
        lemma_mul_is_distributive_add(x, eval_prefix(c, x, m), e * q);
    }
}

/// Polynomials with congruent coefficients have congruent values.
pub proof fn lemma_eval_cong(p: int, c: Seq<int>, d: Seq<int>, x: int, n: nat)
    requires
        p > 0,
        forall|i: int| 0 <= i < n ==> cong(p, #[trigger] coeff(c, i), coeff(d, i)),
    ensures
        cong(p, eval_prefix(c, x, n), eval_prefix(d, x, n)),
    decreases n,
{
    if n > 0 {
        let m = (n - 1) as nat;
        lemma_eval_cong(p, c, d, x, m);
        assert(cong(p, coeff(c, m as int), coeff(d, m as int)));
        lemma_cong_mul(p, coeff(c, m as int), coeff(d, m as int), pow(x, m), pow(x, m));
        lemma_cong_add(
            p,
            eval_prefix(c, x, m),
            eval_prefix(d, x, m),
            coeff(c, m as int) * pow(x, m),
            coeff(d, m as int) * pow(x, m),
        );
    }
}

/// Reduction modulo `p` keeps the value modulo `p`.
pub proof fn lemma_eval_reduced(p: int, c: Seq<int>, x: int)
    requires
        p > 0,
    ensures
        cong(p, eval(reduced(p, c), x), eval(c, x)),
{
    assert forall|i: int| 0 <= i < c.len() implies cong(
        p,
        #[trigger] coeff(reduced(p, c), i),
        coeff(c, i),
    ) by {
        lemma_cong_residue(p, c[i]);
    }
    lemma_eval_cong(p, reduced(p, c), c, x, c.len());
}

/// What trimming keeps: the coefficients, and so the values. What is left is empty or ends in a
/// nonzero coefficient.
pub proof fn lemma_trimmed(c: Seq<int>)
    ensures
        trimmed(c).len() <= c.len(),
        trimmed(c) == c.take(trimmed(c).len() as int),
        trimmed(c).len() > 0 ==> trimmed(c).last() != 0,
        forall|i: int| trimmed(c).len() <= i < c.len() ==> c[i] == 0,
        forall|i: int| #[trigger] coeff(trimmed(c), i) == coeff(c, i),
    decreases c.len(),
{
    if c.len() > 0 && c.last() == 0 {
        let d = c.drop_last();
        lemma_trimmed(d);
        assert(d.take(trimmed(d).len() as int) =~= c.take(trimmed(d).len() as int));
        assert forall|i: int| trimmed(c).len() <= i < c.len() implies c[i] == 0 by {
            if i < c.len() - 1 {
                assert(d[i] == 0);
            }
        }
        assert forall|i: int| #[trigger] coeff(trimmed(c), i) == coeff(c, i) by {
            assert(coeff(trimmed(d), i) == coeff(d, i));
        }
    } else {
        assert(c.take(c.len() as int) =~= c);
    }
}

/// `trimmed(c)` is the one prefix of `c` that drops zeros alone and does not end in a zero.
pub proof fn lemma_trimmed_unique(c: Seq<int>, k: nat)
    requires
        k <= c.len(),
        k > 0 ==> c[k - 1] != 0,
        forall|i: int| k <= i < c.len() ==> #[trigger] c[i] == 0,
    ensures
        trimmed(c) == c.take(k as int),
    decreases c.len(),
{
    if c.len() > k {
        assert(c.last() == 0);
        assert forall|i: int| k <= i < c.drop_last().len() implies #[trigger] c.drop_last()[i]
            == 0 by {
            assert(c[i] == 0);
        }
        lemma_trimmed_unique(c.drop_last(), k);
        assert(c.drop_last().take(k as int) =~= c.take(k as int));
    } else {
        assert(c.take(k as int) =~= c);
    }
}

/// Trimming twice is trimming once.
pub proof fn lemma_trimmed_idempotent(c: Seq<int>)
    ensures
        trimmed(trimmed(c)) == trimmed(c),
{
    lemma_trimmed(c);
}

/// Polynomials with the same coefficients, whatever zeros end them, are equal once trimmed, and no
/// others are.
pub proof fn lemma_trimmed_normal_form(c: Seq<int>, d: Seq<int>)
    ensures
        trimmed(c) == trimmed(d) <==> forall|i: int| #[trigger] coeff(c, i) == coeff(d, i),
{
    lemma_trimmed(c);
    lemma_trimmed(d);
    if trimmed(c) == trimmed(d) {
        assert forall|i: int| #[trigger] coeff(c, i) == coeff(d, i) by {
            assert(coeff(trimmed(c), i) == coeff(c, i));
            assert(coeff(trimmed(d), i) == coeff(d, i));
        }
    }
    if forall|i: int| #[trigger] coeff(c, i) == coeff(d, i) {
        let (m, n) = (trimmed(c).len() as int, trimmed(d).len() as int);
        assert(coeff(trimmed(c), m - 1) == coeff(c, m - 1));
        assert(coeff(trimmed(d), m - 1) == coeff(d, m - 1));
        assert(coeff(trimmed(c), n - 1) == coeff(c, n - 1));
        assert(coeff(trimmed(d), n - 1) == coeff(d, n - 1));
        assert forall|i: int| 0 <= i < m implies trimmed(c)[i] == trimmed(d)[i] by {
            assert(coeff(trimmed(c), i) == coeff(c, i));
            assert(coeff(trimmed(d), i) == coeff(d, i));
        }
        assert(trimmed(c) =~= trimmed(d));
    }
}

/// Trimming keeps the value at each point.
pub proof fn lemma_eval_trimmed(c: Seq<int>, x: int)
    ensures
        eval(trimmed(c), x) == eval(c, x),
{
    lemma_trimmed(c);
    lemma_eval_same_coeffs(trimmed(c), c, x);
}

/// Sequences with the same coefficients have the same values, whatever zeros end them.
pub proof fn lemma_eval_same_coeffs(c: Seq<int>, d: Seq<int>, x: int)
    requires
        forall|i: int| #[trigger] coeff(c, i) == coeff(d, i),
    ensures
        eval(c, x) == eval(d, x),
{
    let n = if c.len() >= d.len() {
        c.len()
    } else {
        d.len()
    };
    lemma_eval_past_end(c, x, n);
    lemma_eval_past_end(d, x, n);
    lemma_prefix_same_coeffs(c, d, x, n);
}

proof fn lemma_prefix_same_coeffs(c: Seq<int>, d: Seq<int>, x: int, n: nat)
    requires
        forall|i: int| #[trigger] coeff(c, i) == coeff(d, i),
    ensures
        eval_prefix(c, x, n) == eval_prefix(d, x, n),
    decreases n,
{
    if n > 0 {
        lemma_prefix_same_coeffs(c, d, x, (n - 1) as nat);
        assert(coeff(c, n - 1) == coeff(d, n - 1));
    }
}

/// The value of a linear combination of two polynomials.
pub proof fn lemma_prefix_linear(
    c: Seq<int>,
    s: int,
    d: Seq<int>,
    t: int,
    r: Seq<int>,
    x: int,
    n: nat,
)
    requires
        forall|i: int| 0 <= i < n ==> #[trigger] coeff(r, i) == s * coeff(c, i) + t * coeff(d, i),
    ensures
        eval_prefix(r, x, n) == s * eval_prefix(c, x, n) + t * eval_prefix(d, x, n),
    decreases n,
{
    if n > 0 {
        let m = (n - 1) as nat;
        lemma_prefix_linear(c, s, d, t, r, x, m);
        assert(coeff(r, m as int) == s * coeff(c, m as int) + t * coeff(d, m as int));
        let (ec, ed) = (eval_prefix(c, x, m), eval_prefix(d, x, m));
        let (a, b, q) = (coeff(c, m as int), coeff(d, m as int), pow(x, m));
        lemma_mul_is_distributive_add_other_way(q, s * a, t * b);
        lemma_mul_is_associative(s, a, q);
        lemma_mul_is_associative(t, b, q);
        lemma_mul_is_distributive_add(s, ec, a * q);
        lemma_mul_is_distributive_add(t, ed, b * q);
    } else {
        assert(s * 0 + t * 0 == 0) by (nonlinear_arith);
    }
}

/// The coefficient of `x^k` in the product of `a` and `b0 + b1 x`.
pub proof fn lemma_product_coeff_linear(a: Seq<int>, b: Seq<int>, k: nat)
    requires
        b.len() == 2,
    ensures
        product_coeff(a, b, k as int, k + 1) == coeff(a, k as int) * b[0] + coeff(a, k - 1) * b[1],
{
    if k > 0 {
        lemma_product_coeff_below(a, b, k as int, (k - 1) as nat);
        assert(product_coeff(a, b, k as int, k) == coeff(a, k - 1) * b[1]);
    } else {
        assert(product_coeff(a, b, 0, 0) == 0);
        assert(coeff(a, -1) * b[1] == 0);
    }
}

proof fn lemma_product_coeff_below(a: Seq<int>, b: Seq<int>, k: int, n: nat)
    requires
        b.len() == 2,
        n < k,
    ensures
        product_coeff(a, b, k, n) == 0,
    decreases n,
{
    if n > 0 {
        lemma_product_coeff_below(a, b, k, (n - 1) as nat);
        assert(coeff(b, k - (n - 1)) == 0);
        assert(coeff(a, n - 1) * 0 == 0);
    }
}

/// The coefficients of the product of a polynomial and a linear one.
pub proof fn lemma_product_linear(a: Seq<int>, b: Seq<int>)
    requires
        a.len() > 0,
        b.len() == 2,
    ensures
        product(a, b).len() == a.len() + 1,
        forall|k: int|
            0 <= k ==> #[trigger] coeff(product(a, b), k) == coeff(a, k) * b[0] + coeff(a, k - 1)
                * b[1],
        product(a, b).last() == a.last() * b[1],
{
    assert forall|k: int| 0 <= k implies #[trigger] coeff(product(a, b), k) == coeff(a, k) * b[0]
        + coeff(a, k - 1) * b[1] by {
        lemma_product_coeff_linear(a, b, k as nat);
        if k > a.len() {
            assert(0 * b[0] + 0 * b[1] == 0);
        }
    }
    let n = a.len() as int;
    assert(coeff(product(a, b), n) == coeff(a, n) * b[0] + coeff(a, n - 1) * b[1]);
}

/// The value of the product of a polynomial and a linear one is the product of their values.
pub proof fn lemma_eval_product_linear(a: Seq<int>, b: Seq<int>, x: int)
    requires
        a.len() > 0,
        b.len() == 2,
    ensures
        eval(product(a, b), x) == eval(a, x) * (b[0] + b[1] * x),
{
    lemma_product_linear(a, b);
    let n = a.len();
    lemma_prefix_product_linear(a, b, x, n);
    lemma_eval_past_end(a, x, n + 1);
    let e = eval(a, x);
    assert(e * b[0] + x * (e * b[1]) == e * (b[0] + b[1] * x)) by (nonlinear_arith);
}

proof fn lemma_prefix_product_linear(a: Seq<int>, b: Seq<int>, x: int, n: nat)
    requires
        a.len() > 0,
        b.len() == 2,
    ensures
        eval_prefix(product(a, b), x, n + 1) == eval_prefix(a, x, n + 1) * b[0] + x * (eval_prefix(
            a,
            x,
            n,
        ) * b[1]),
    decreases n,
{
    reveal_with_fuel(eval_prefix, 2);
    lemma_product_linear(a, b);
    assert(coeff(product(a, b), n as int) == coeff(a, n as int) * b[0] + coeff(a, n - 1) * b[1]);
    if n == 0 {
        lemma_pow0(x);
        let q = coeff(a, 0);
        assert((q * b[0] + 0 * b[1]) * 1 == q * 1 * b[0] + x * (0 * b[1])) by (nonlinear_arith);
    } else {
        let m = (n - 1) as nat;
        lemma_prefix_product_linear(a, b, x, m);
        let (e1, e0) = (eval_prefix(a, x, n), eval_prefix(a, x, m));
        let (an, am, q, r) = (coeff(a, n as int), coeff(a, m as int), pow(x, n), pow(x, m));
        assert(q == x * r) by {
            reveal(pow);
        }
        let (b0, b1) = (b[0], b[1]);
        assert(e1 == e0 + am * r);
        lemma_mul_is_distributive_add_other_way(q, an * b0, am * b1);
        assert((an * b0) * q == (an * q) * b0) by (nonlinear_arith);
        assert((am * b1) * (x * r) == x * ((am * r) * b1)) by (nonlinear_arith);
        lemma_mul_is_distributive_add_other_way(b0, e1, an * q);
        lemma_mul_is_distributive_add_other_way(b1, e0, am * r);
        lemma_mul_is_distributive_add(x, e0 * b1, (am * r) * b1);
    }
}

/// The value at `r` of what is left of `c` after division by `x^k`.
pub open spec fn horner(c: Seq<int>, r: int, k: nat) -> int
    decreases c.len() - k,
{
    if k >= c.len() {
        0
    } else {
        c[k as int] + r * horner(c, r, k + 1)
    }
}

/// The quotient of `c` by `X - r`.
pub open spec fn quotient(c: Seq<int>, r: int) -> Seq<int> {
    Seq::new((c.len() - 1) as nat, |k: int| horner(c, r, (k + 1) as nat))
}

/// Division by `X - r` leaves the value at `r`.
pub proof fn lemma_division(c: Seq<int>, r: int)
    requires
        c.len() > 0,
    ensures
        forall|x: int|
            #[trigger] eval(c, x) == eval(c, r) + eval(quotient(c, r), x) * (x - r),
        forall|k: int|
            1 <= k ==> #[trigger] coeff(c, k) == coeff(quotient(c, r), k - 1) - r * coeff(
                quotient(c, r),
                k,
            ),
        c[0] == eval(c, r) - r * coeff(quotient(c, r), 0),
{
    let q = quotient(c, r);
    let h = horner(c, r, 0);
    assert forall|k: int| 0 <= k implies #[trigger] coeff(q, k) == horner(
        c,
        r,
        (k + 1) as nat,
    ) by {}
    assert forall|k: int| 1 <= k implies #[trigger] coeff(c, k) == coeff(q, k - 1) - r * coeff(
        q,
        k,
    ) by {
        assert(coeff(q, k - 1) == horner(c, r, k as nat));
        assert(coeff(q, k) == horner(c, r, (k + 1) as nat));
        if k >= c.len() {
            assert(r * 0 == 0);
        }
    }
    assert(coeff(q, 0) == horner(c, r, 1));
    assert(c[0] == h - r * coeff(q, 0));
    assert forall|x: int| #[trigger] eval(c, x) == h + eval(q, x) * (x - r) by {
        lemma_eval_constant(h, x);
        if q.len() == 0 {
            assert(c =~= seq![c[0]]);
            lemma_eval_constant(c[0], x);
            assert(horner(c, r, 1) == 0);
            assert(r * 0 == 0);
            assert(eval(q, x) == 0);
            assert(0 * (x - r) == 0);
        } else {
            let f = seq![-r, 1];
            let m = product(q, f);
            lemma_product_linear(q, f);
            lemma_eval_product_linear(q, f, x);
            let one = seq![h];
            assert forall|i: int| 0 <= i < c.len() implies #[trigger] coeff(c, i) == 1 * coeff(
                m,
                i,
            ) + 1 * coeff(one, i) by {
                assert(coeff(m, i) == coeff(q, i) * f[0] + coeff(q, i - 1) * f[1]);
                let z = coeff(q, i);
                assert(z * (-r) == -(r * z)) by (nonlinear_arith);
                let y = coeff(q, i - 1);
                assert(f[0] == -r && f[1] == 1);
                assert(y * 1 == y);
                if i > 0 {
                    assert(coeff(c, i) == y - r * z);
                }
            }
            lemma_prefix_linear(m, 1, one, 1, c, x, c.len());
            lemma_eval_past_end(one, x, c.len());
            let e = eval(q, x);
            assert(e * (-r + 1 * x) == e * (x - r)) by (nonlinear_arith);
        }
    }
    assert(eval(c, r) == h + eval(q, r) * (r - r));
    assert(eval(q, r) * 0 == 0);
}

/// The value of a constant polynomial.
pub proof fn lemma_eval_constant(c: int, x: int)
    ensures
        eval(seq![c], x) == c,
{
    reveal_with_fuel(eval_prefix, 2);
    lemma_pow0(x);
    assert(c * 1 == c);
}

/// Each difference of two points is a unit.
pub open spec fn units_apart(p: int, xs: Seq<int>) -> bool {
    forall|i: int, j: int|
        0 <= i < xs.len() && 0 <= j < xs.len() && i != j ==> is_unit(
            p,
            #[trigger] xs[i] - #[trigger] xs[j],
        )
}

/// Where a polynomial has roots that lie units apart, its quotient by the last of them has the others.
pub proof fn lemma_root_divided(p: int, c: Seq<int>, xs: Seq<int>)
    requires
        p > 0,
        c.len() > 0,
        xs.len() > 0,
        units_apart(p, xs),
        forall|i: int| 0 <= i < xs.len() ==> cong(p, #[trigger] eval(c, xs[i]), 0),
    ensures
        units_apart(p, xs.drop_last()),
        forall|i: int|
            0 <= i < xs.len() - 1 ==> cong(
                p,
                #[trigger] eval(quotient(c, xs.last()), xs.drop_last()[i]),
                0,
            ),
{
    let n = xs.len() - 1;
    let r = xs[n];
    let q = quotient(c, r);
    let ys = xs.drop_last();
    lemma_division(c, r);
    assert(cong(p, eval(c, xs[n]), 0));
    assert forall|i: int| 0 <= i < ys.len() implies cong(p, #[trigger] eval(q, ys[i]), 0) by {
        let x = ys[i];
        assert(xs[i] == x);
        assert(cong(p, eval(c, xs[i]), 0));
        assert(eval(c, x) == eval(c, r) + eval(q, x) * (x - r));
        lemma_cong_sub(p, eval(c, x), 0, eval(c, r), 0);
        let e = eval(q, x);
        assert(e * (x - r) == (x - r) * e) by (nonlinear_arith);
        assert(is_unit(p, xs[i] - xs[n]));
        lemma_unit_cancels(p, x - r, e);
    }
    assert forall|i: int, j: int|
        0 <= i < ys.len() && 0 <= j < ys.len() && i != j implies is_unit(
        p,
        #[trigger] ys[i] - #[trigger] ys[j],
    ) by {
        assert(is_unit(p, xs[i] - xs[j]));
    }
}

/// A polynomial with as many coefficients as it has roots that lie units apart is zero.
pub proof fn lemma_too_many_roots(p: int, c: Seq<int>, xs: Seq<int>)
    requires
        p > 0,
        c.len() == xs.len(),
        units_apart(p, xs),
        forall|i: int| 0 <= i < xs.len() ==> cong(p, #[trigger] eval(c, xs[i]), 0),
    ensures
        forall|k: int| 0 <= k < c.len() ==> cong(p, #[trigger] c[k], 0),
    decreases c.len(),
{
    if c.len() > 0 {
        let n = (c.len() - 1) as nat;
        let r = xs.last();
        let q = quotient(c, r);
        let ys = xs.drop_last();
        lemma_division(c, r);
        lemma_root_divided(p, c, xs);
        assert(r == xs[n as int] && cong(p, eval(c, xs[n as int]), 0));
        lemma_too_many_roots(p, q, ys);
        assert forall|k: int| 0 <= k < c.len() implies cong(p, #[trigger] c[k], 0) by {
            assert(cong(p, coeff(q, k), 0)) by {
                if k < q.len() {
                    assert(cong(p, q[k], 0));
                }
            }
            lemma_cong_mul(p, r, r, coeff(q, k), 0);
            assert(r * 0 == 0);
            if k > 0 {
                assert(coeff(c, k) == coeff(q, k - 1) - r * coeff(q, k));
                assert(cong(p, q[k - 1], 0));
                lemma_cong_sub(p, coeff(q, k - 1), 0, r * coeff(q, k), 0);
            } else {
                lemma_cong_sub(p, eval(c, r), 0, r * coeff(q, 0), 0);
            }
        }
    }
}

/// Where the values of a polynomial differ by a unit, so do the points.
pub proof fn lemma_values_apart(p: int, c: Seq<int>, x: int, y: int)
    requires
        p > 0,
        cong(p, eval(c, x) - eval(c, y), 1),
    ensures
        is_unit(p, x - y),
{
    if c.len() == 0 {
        assert(eval(c, x) == 0 && eval(c, y) == 0);
        assert(cong(p, 0, 1));
        assert(cong(p, (x - y) * 0, 1));
    } else {
        lemma_division(c, y);
        let e = eval(quotient(c, y), x);
        assert(eval(c, x) == eval(c, y) + e * (x - y));
        assert(e * (x - y) == (x - y) * e) by (nonlinear_arith);
        assert(cong(p, (x - y) * e, 1));
    }
}

} // verus!
