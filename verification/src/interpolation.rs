//! What Lagrange bases and vanishing polynomials are for: interpolation, and tests that a polynomial
//! is zero on a part of a domain.

use vstd::prelude::*;

use crate::modular::{
    cong, is_field, is_unit, lemma_cong_add, lemma_cong_mul, lemma_cong_sub, lemma_one_is_unit,
    lemma_residue_small, lemma_residues_equal, lemma_unit_cancels, lemma_unit_not_zero,
    lemma_unit_product,
};
use crate::poly::{
    canonical, coeff, eval, eval_prefix, lemma_division, lemma_eval_constant,
    lemma_eval_same_coeffs, lemma_prefix_linear, lemma_root_divided, lemma_too_many_roots,
    lemma_trimmed_unique, lemma_values_apart, quotient, reduced, trimmed, units_apart,
};
use crate::well_formation::{
    difference_product, is_lagrange_basis, lemma_monic_product, monic_product,
};

verus! {

/// The coefficient of `x^k` in the sum of `ys[i] * ls[i]` over all `i < m`.
pub open spec fn combined_coeff(ls: Seq<Seq<int>>, ys: Seq<int>, k: int, m: nat) -> int
    decreases m,
{
    if m == 0 {
        0
    } else {
        combined_coeff(ls, ys, k, (m - 1) as nat) + ys[m - 1] * coeff(ls[m - 1], k)
    }
}

/// The sum of `ys[i] * ls[i]` over all `i`, with as many coefficients as there are summands.
pub open spec fn combined(ls: Seq<Seq<int>>, ys: Seq<int>) -> Seq<int> {
    Seq::new(ls.len(), |k: int| combined_coeff(ls, ys, k, ls.len()))
}

/// The sum of `ys[i]` times the value of `ls[i]` at `x` over all `i < m`.
spec fn combined_value(ls: Seq<Seq<int>>, ys: Seq<int>, x: int, m: nat) -> int
    decreases m,
{
    if m == 0 {
        0
    } else {
        combined_value(ls, ys, x, (m - 1) as nat) + ys[m - 1] * eval(ls[m - 1], x)
    }
}

proof fn lemma_combined_value(ls: Seq<Seq<int>>, ys: Seq<int>, x: int, width: nat, m: nat)
    requires
        m <= ls.len(),
        forall|i: int| 0 <= i < ls.len() ==> (#[trigger] ls[i]).len() == width,
    ensures
        eval(Seq::new(width, |k: int| combined_coeff(ls, ys, k, m)), x) == combined_value(
            ls,
            ys,
            x,
            m,
        ),
    decreases m,
{
    let c = Seq::new(width, |k: int| combined_coeff(ls, ys, k, m));
    if m == 0 {
        lemma_zero_prefix(c, x, width);
    } else {
        let j = (m - 1) as nat;
        let b = Seq::new(width, |k: int| combined_coeff(ls, ys, k, j));
        lemma_combined_value(ls, ys, x, width, j);
        assert(ls[j as int].len() == width);
        assert forall|i: int| 0 <= i < width implies #[trigger] coeff(c, i) == 1 * coeff(b, i)
            + ys[j as int] * coeff(ls[j as int], i) by {}
        lemma_prefix_linear(b, 1, ls[j as int], ys[j as int], c, x, width);
    }
}

proof fn lemma_zero_prefix(c: Seq<int>, x: int, n: nat)
    requires
        forall|i: int| 0 <= i < c.len() ==> #[trigger] c[i] == 0,
    ensures
        eval_prefix(c, x, n) == 0,
    decreases n,
{
    if n > 0 {
        lemma_zero_prefix(c, x, (n - 1) as nat);
        assert(coeff(c, n - 1) == 0);
    }
}

proof fn lemma_combined_at(p: int, xs: Seq<int>, ls: Seq<Seq<int>>, ys: Seq<int>, j: int, m: nat)
    requires
        p > 0,
        is_lagrange_basis(p, xs, ls),
        0 <= j < xs.len(),
        m <= xs.len(),
    ensures
        cong(
            p,
            combined_value(ls, ys, xs[j], m),
            if j < m {
                ys[j]
            } else {
                0
            },
        ),
    decreases m,
{
    if m > 0 {
        let i = m - 1;
        lemma_combined_at(p, xs, ls, ys, j, (m - 1) as nat);
        let target: int = if i == j {
            1
        } else {
            0
        };
        assert(cong(p, eval(ls[i], xs[j]), target));
        lemma_cong_mul(p, ys[i], ys[i], eval(ls[i], xs[j]), target);
        let before: int = if j < m - 1 {
            ys[j]
        } else {
            0
        };
        lemma_cong_add(
            p,
            combined_value(ls, ys, xs[j], (m - 1) as nat),
            before,
            ys[i] * eval(ls[i], xs[j]),
            ys[i] * target,
        );
        assert(ys[i] * 1 == ys[i] && ys[i] * 0 == 0);
    }
}

/// Interpolation: the combination of a Lagrange basis with the weights `ys` has the value `ys[j]` at
/// the `j`-th point.
pub proof fn lemma_interpolates(p: int, xs: Seq<int>, ls: Seq<Seq<int>>, ys: Seq<int>, j: int)
    requires
        p > 1,
        is_lagrange_basis(p, xs, ls),
        ys.len() == xs.len(),
        0 <= j < xs.len(),
    ensures
        cong(p, eval(combined(ls, ys), xs[j]), ys[j]),
{
    lemma_combined_value(ls, ys, xs[j], ls.len(), ls.len());
    assert(combined(ls, ys) =~= Seq::new(
        ls.len(),
        |k: int| combined_coeff(ls, ys, k, ls.len()),
    ));
    lemma_combined_at(p, xs, ls, ys, j, xs.len());
}

/// The points of a Lagrange basis lie units apart.
pub proof fn lemma_basis_points_apart(p: int, xs: Seq<int>, ls: Seq<Seq<int>>)
    requires
        p > 1,
        is_lagrange_basis(p, xs, ls),
    ensures
        units_apart(p, xs),
{
    assert forall|i: int, j: int|
        0 <= i < xs.len() && 0 <= j < xs.len() && i != j implies is_unit(
        p,
        #[trigger] xs[i] - #[trigger] xs[j],
    ) by {
        assert(cong(p, eval(ls[i], xs[i]), 1));
        assert(cong(p, eval(ls[i], xs[j]), 0));
        lemma_cong_sub(p, eval(ls[i], xs[i]), 1, eval(ls[i], xs[j]), 0);
        lemma_values_apart(p, ls[i], xs[i], xs[j]);
    }
}

/// Two polynomials with as many coefficients as there are points units apart, and with the same
/// values at the points, have the same coefficients.
pub proof fn lemma_values_determine(p: int, xs: Seq<int>, c: Seq<int>, d: Seq<int>)
    requires
        p > 1,
        units_apart(p, xs),
        c.len() == xs.len(),
        d.len() == xs.len(),
        forall|j: int| 0 <= j < xs.len() ==> cong(p, eval(c, #[trigger] xs[j]), eval(d, xs[j])),
    ensures
        forall|k: int| 0 <= k < c.len() ==> cong(p, #[trigger] c[k], d[k]),
{
    let e = Seq::new(c.len(), |k: int| c[k] - d[k]);
    assert forall|j: int| 0 <= j < xs.len() implies cong(p, #[trigger] eval(e, xs[j]), 0) by {
        let x = xs[j];
        assert forall|i: int| 0 <= i < c.len() implies #[trigger] coeff(e, i) == 1 * coeff(c, i)
            + (-1) * coeff(d, i) by {}
        lemma_prefix_linear(c, 1, d, -1, e, x, c.len());
        lemma_cong_sub(p, eval(c, x), eval(d, x), eval(d, x), eval(d, x));
    }
    lemma_too_many_roots(p, e, xs);
    assert forall|k: int| 0 <= k < c.len() implies cong(p, #[trigger] c[k], d[k]) by {
        assert(cong(p, e[k], 0));
        lemma_cong_add(p, e[k], 0, d[k], d[k]);
    }
}

/// There is but one Lagrange basis of given points.
pub proof fn lemma_basis_unique(p: int, xs: Seq<int>, ls: Seq<Seq<int>>, ms: Seq<Seq<int>>)
    requires
        p > 1,
        is_lagrange_basis(p, xs, ls),
        is_lagrange_basis(p, xs, ms),
    ensures
        ls == ms,
{
    lemma_basis_points_apart(p, xs, ls);
    assert forall|i: int| 0 <= i < ls.len() implies #[trigger] ls[i] == ms[i] by {
        assert(ls[i].len() == xs.len() && ms[i].len() == xs.len());
        assert(canonical(p, ls[i]) && canonical(p, ms[i]));
        assert forall|j: int| 0 <= j < xs.len() implies cong(
            p,
            eval(ls[i], #[trigger] xs[j]),
            eval(ms[i], xs[j]),
        ) by {}
        lemma_values_determine(p, xs, ls[i], ms[i]);
        assert forall|k: int| 0 <= k < xs.len() implies ls[i][k] == ms[i][k] by {
            assert(cong(p, ls[i][k], ms[i][k]));
            lemma_residues_equal(p, ls[i][k], ms[i][k]);
        }
        assert(ls[i] =~= ms[i]);
    }
    assert(ls =~= ms);
}

/// The polynomials of a Lagrange basis add up to the constant one: of the coefficients of their sum
/// all but the first are zero, and without the zeros at its end the sum is one.
pub proof fn lemma_basis_sums_to_one(p: int, xs: Seq<int>, ls: Seq<Seq<int>>)
    requires
        p > 1,
        is_lagrange_basis(p, xs, ls),
        xs.len() > 0,
    ensures
        reduced(p, combined(ls, Seq::new(xs.len(), |i: int| 1int))) == Seq::new(
            xs.len(),
            |k: int|
                if k == 0 {
                    1int
                } else {
                    0
                },
        ),
        trimmed(reduced(p, combined(ls, Seq::new(xs.len(), |i: int| 1int)))) == seq![1int],
{
    let ones = Seq::new(xs.len(), |i: int| 1int);
    let c = combined(ls, ones);
    let d = Seq::new(
        xs.len(),
        |k: int|
            if k == 0 {
                1int
            } else {
                0
            },
    );
    lemma_basis_points_apart(p, xs, ls);
    assert forall|j: int| 0 <= j < xs.len() implies cong(
        p,
        eval(c, #[trigger] xs[j]),
        eval(d, xs[j]),
    ) by {
        lemma_interpolates(p, xs, ls, ones, j);
        lemma_eval_constant(1, xs[j]);
        lemma_eval_same_coeffs(seq![1int], d, xs[j]);
    }
    lemma_values_determine(p, xs, c, d);
    let r = reduced(p, c);
    lemma_residue_small(p, 1);
    lemma_residue_small(p, 0);
    assert forall|k: int| 0 <= k < xs.len() implies r[k] == d[k] by {
        assert(cong(p, c[k], d[k]));
    }
    assert(r =~= d);
    lemma_trimmed_unique(r, 1);
    assert(r.take(1) =~= seq![1int]);
}

/// A vanishing polynomial is zero at each of its points.
pub proof fn lemma_vanishes(p: int, xs: Seq<int>, k: int)
    requires
        p > 1,
        0 <= k < xs.len(),
    ensures
        cong(p, eval(monic_product(p, xs), xs[k]), 0),
{
    lemma_monic_product(p, xs);
    lemma_difference_zero(xs, k);
}

proof fn lemma_difference_zero(xs: Seq<int>, k: int)
    requires
        0 <= k < xs.len(),
    ensures
        difference_product(xs, xs[k]) == 0,
    decreases xs.len(),
{
    let ys = xs.drop_last();
    if k < ys.len() {
        lemma_difference_zero(ys, k);
        assert(0 * (xs[k] - xs.last()) == 0);
    } else {
        assert(difference_product(ys, xs[k]) * 0 == 0);
    }
}

/// At a point that lies units apart from all its points, the value of a vanishing polynomial is a
/// unit, and so not zero.
pub proof fn lemma_vanishes_at_no_point_apart(p: int, xs: Seq<int>, x: int)
    requires
        p > 1,
        forall|k: int| 0 <= k < xs.len() ==> is_unit(p, x - #[trigger] xs[k]),
    ensures
        is_unit(p, eval(monic_product(p, xs), x)),
        !cong(p, eval(monic_product(p, xs), x), 0),
{
    let (v, d) = (eval(monic_product(p, xs), x), difference_product(xs, x));
    lemma_monic_product(p, xs);
    lemma_difference_unit(p, xs, x);
    let w = choose|w: int| cong(p, #[trigger] (d * w), 1);
    lemma_cong_mul(p, v, d, w, w);
    assert(cong(p, v * w, 1));
    lemma_unit_not_zero(p, v);
}

/// Where the residues form a field, a vanishing polynomial is zero at no other point.
pub proof fn lemma_vanishes_nowhere_else(p: int, xs: Seq<int>, x: int)
    requires
        is_field(p),
        forall|k: int| 0 <= k < xs.len() ==> !cong(p, x, #[trigger] xs[k]),
    ensures
        !cong(p, eval(monic_product(p, xs), x), 0),
{
    assert forall|k: int| 0 <= k < xs.len() implies is_unit(p, x - #[trigger] xs[k]) by {
        if cong(p, x - xs[k], 0) {
            lemma_cong_add(p, x - xs[k], 0, xs[k], xs[k]);
        }
    }
    lemma_vanishes_at_no_point_apart(p, xs, x);
}

proof fn lemma_difference_unit(p: int, xs: Seq<int>, x: int)
    requires
        p > 1,
        forall|k: int| 0 <= k < xs.len() ==> is_unit(p, x - #[trigger] xs[k]),
    ensures
        is_unit(p, difference_product(xs, x)),
    decreases xs.len(),
{
    if xs.len() == 0 {
        lemma_one_is_unit(p);
    } else {
        let ys = xs.drop_last();
        assert forall|k: int| 0 <= k < ys.len() implies is_unit(p, x - #[trigger] ys[k]) by {
            assert(ys[k] == xs[k]);
        }
        lemma_difference_unit(p, ys, x);
        assert(is_unit(p, x - xs[xs.len() - 1]));
        lemma_unit_product(p, difference_product(ys, x), x - xs.last());
    }
}

/// A polynomial that is zero at points units apart is a multiple of their vanishing polynomial.
pub proof fn lemma_divisible_by_vanishing(p: int, c: Seq<int>, xs: Seq<int>) -> (q: Seq<int>)
    requires
        p > 1,
        units_apart(p, xs),
        c.len() >= xs.len(),
        forall|i: int| 0 <= i < xs.len() ==> cong(p, #[trigger] eval(c, xs[i]), 0),
    ensures
        q.len() + xs.len() == c.len(),
        forall|x: int|
            cong(p, #[trigger] eval(c, x), eval(q, x) * eval(monic_product(p, xs), x)),
{
    let q = lemma_divisible_by_differences(p, c, xs);
    lemma_monic_product(p, xs);
    assert forall|x: int| cong(
        p,
        #[trigger] eval(c, x),
        eval(q, x) * eval(monic_product(p, xs), x),
    ) by {
        lemma_cong_mul(
            p,
            eval(q, x),
            eval(q, x),
            eval(monic_product(p, xs), x),
            difference_product(xs, x),
        );
    }
    q
}

proof fn lemma_divisible_by_differences(p: int, c: Seq<int>, xs: Seq<int>) -> (q: Seq<int>)
    requires
        p > 1,
        units_apart(p, xs),
        c.len() >= xs.len(),
        forall|i: int| 0 <= i < xs.len() ==> cong(p, #[trigger] eval(c, xs[i]), 0),
    ensures
        q.len() + xs.len() == c.len(),
        forall|x: int| cong(p, #[trigger] eval(c, x), eval(q, x) * difference_product(xs, x)),
    decreases xs.len(),
{
    if xs.len() == 0 {
        assert forall|x: int| cong(
            p,
            #[trigger] eval(c, x),
            eval(c, x) * difference_product(xs, x),
        ) by {
            assert(eval(c, x) * 1 == eval(c, x));
        }
        c
    } else {
        let n = xs.len() - 1;
        let r = xs.last();
        let ys = xs.drop_last();
        let d = quotient(c, r);
        lemma_division(c, r);
        lemma_root_divided(p, c, xs);
        assert(r == xs[n] && cong(p, eval(c, xs[n]), 0));
        let q = lemma_divisible_by_differences(p, d, ys);
        assert forall|x: int| cong(
            p,
            #[trigger] eval(c, x),
            eval(q, x) * difference_product(xs, x),
        ) by {
            let (e, g, f) = (eval(q, x), difference_product(ys, x), x - r);
            assert(eval(c, x) == eval(c, r) + eval(d, x) * f);
            assert(cong(p, eval(d, x), e * g));
            lemma_cong_mul(p, eval(d, x), e * g, f, f);
            lemma_cong_add(p, eval(c, r), 0, eval(d, x) * f, e * g * f);
            assert(e * g * f == e * (g * f)) by (nonlinear_arith);
        }
        q
    }
}

/// The well-formation test: where `z` has the prescribed values `ys` at the points `xs`, its
/// difference to the interpolation of these values, times the vanishing polynomial of the other
/// points, is zero on the whole domain.
pub proof fn lemma_well_formation_zero(
    p: int,
    xs: Seq<int>,
    ls: Seq<Seq<int>>,
    ys: Seq<int>,
    others: Seq<int>,
    z: Seq<int>,
    x: int,
)
    requires
        p > 1,
        is_lagrange_basis(p, xs, ls),
        ys.len() == xs.len(),
        forall|j: int| 0 <= j < xs.len() ==> cong(p, eval(z, #[trigger] xs[j]), ys[j]),
        xs.contains(x) || others.contains(x),
    ensures
        cong(
            p,
            (eval(z, x) - eval(combined(ls, ys), x)) * eval(monic_product(p, others), x),
            0,
        ),
{
    let d = eval(z, x) - eval(combined(ls, ys), x);
    let v = eval(monic_product(p, others), x);
    if xs.contains(x) {
        let j = choose|j: int| 0 <= j < xs.len() && xs[j] == x;
        lemma_interpolates(p, xs, ls, ys, j);
        assert(cong(p, eval(z, xs[j]), ys[j]));
        lemma_cong_sub(p, eval(z, x), ys[j], eval(combined(ls, ys), x), ys[j]);
        lemma_cong_mul(p, d, 0, v, v);
        assert(0 * v == 0);
    } else {
        let j = choose|j: int| 0 <= j < others.len() && others[j] == x;
        lemma_vanishes(p, others, j);
        lemma_cong_mul(p, d, d, v, 0);
        assert(d * 0 == 0);
    }
}

/// The value at `x` of the oracle that ties a committed witness `z` to the public values: the
/// difference of `z` to the interpolation `x_poly` of the inputs, times the vanishing polynomial of
/// the points past the first `t`, plus `sep` times the difference of `z` to the interpolation
/// `y_poly` of the outputs, times the vanishing polynomial of the points before the last `s`.
pub open spec fn well_formation_value(
    p: int,
    h: Seq<int>,
    t: int,
    s: int,
    sep: int,
    z: Seq<int>,
    x_poly: Seq<int>,
    y_poly: Seq<int>,
    x: int,
) -> int {
    (eval(z, x) - eval(x_poly, x)) * eval(monic_product(p, h.skip(t)), x) + sep * ((eval(z, x)
        - eval(y_poly, x)) * eval(monic_product(p, h.take(h.len() - s)), x))
}

/// Where `z` has the prescribed values at the first `t` and at the last `s` points of a domain, the
/// well-formation oracle is zero on the whole domain.
pub proof fn lemma_oracle_zero(
    p: int,
    h: Seq<int>,
    t: int,
    s: int,
    sep: int,
    z: Seq<int>,
    input_basis: Seq<Seq<int>>,
    inputs: Seq<int>,
    output_basis: Seq<Seq<int>>,
    outputs: Seq<int>,
    k: int,
)
    requires
        p > 1,
        0 <= t <= h.len(),
        0 <= s <= h.len(),
        is_lagrange_basis(p, h.take(t), input_basis),
        is_lagrange_basis(p, h.skip(h.len() - s), output_basis),
        inputs.len() == t,
        outputs.len() == s,
        forall|j: int| 0 <= j < t ==> cong(p, eval(z, #[trigger] h[j]), inputs[j]),
        forall|j: int|
            h.len() - s <= j < h.len() ==> cong(
                p,
                eval(z, #[trigger] h[j]),
                outputs[j - (h.len() - s)],
            ),
        0 <= k < h.len(),
    ensures
        cong(
            p,
            well_formation_value(
                p,
                h,
                t,
                s,
                sep,
                z,
                combined(input_basis, inputs),
                combined(output_basis, outputs),
                h[k],
            ),
            0,
        ),
{
    let (front, back) = (h.take(h.len() - s), h.skip(h.len() - s));
    let (low, high) = (h.take(t), h.skip(t));
    assert(low.contains(h[k]) || high.contains(h[k])) by {
        if k < t {
            assert(low[k] == h[k]);
        } else {
            assert(high[k - t] == h[k]);
        }
    }
    assert(front.contains(h[k]) || back.contains(h[k])) by {
        if k < h.len() - s {
            assert(front[k] == h[k]);
        } else {
            assert(back[k - (h.len() - s)] == h[k]);
        }
    }
    assert forall|j: int| 0 <= j < low.len() implies cong(
        p,
        eval(z, #[trigger] low[j]),
        inputs[j],
    ) by {
        assert(low[j] == h[j]);
    }
    assert forall|j: int| 0 <= j < back.len() implies cong(
        p,
        eval(z, #[trigger] back[j]),
        outputs[j],
    ) by {
        assert(back[j] == h[j + (h.len() - s)]);
    }
    lemma_well_formation_zero(p, low, input_basis, inputs, high, z, h[k]);
    lemma_well_formation_zero(p, back, output_basis, outputs, front, z, h[k]);
    let left = (eval(z, h[k]) - eval(combined(input_basis, inputs), h[k])) * eval(
        monic_product(p, high),
        h[k],
    );
    let right = (eval(z, h[k]) - eval(combined(output_basis, outputs), h[k])) * eval(
        monic_product(p, front),
        h[k],
    );
    lemma_cong_mul(p, sep, sep, right, 0);
    assert(sep * 0 == 0);
    lemma_cong_add(p, left, 0, sep * right, 0);
}

/// Where the well-formation oracle is zero on a domain of points units apart, and inputs and outputs
/// share no point, `z` has the prescribed values at the first `t` points and, if `sep` is a unit, at
/// the last `s`.
pub proof fn lemma_oracle_forces_values(
    p: int,
    h: Seq<int>,
    t: int,
    s: int,
    sep: int,
    z: Seq<int>,
    input_basis: Seq<Seq<int>>,
    inputs: Seq<int>,
    output_basis: Seq<Seq<int>>,
    outputs: Seq<int>,
    k: int,
)
    requires
        p > 1,
        units_apart(p, h),
        0 <= t,
        0 <= s,
        t + s <= h.len(),
        is_lagrange_basis(p, h.take(t), input_basis),
        is_lagrange_basis(p, h.skip(h.len() - s), output_basis),
        inputs.len() == t,
        outputs.len() == s,
        0 <= k < h.len(),
        cong(
            p,
            well_formation_value(
                p,
                h,
                t,
                s,
                sep,
                z,
                combined(input_basis, inputs),
                combined(output_basis, outputs),
                h[k],
            ),
            0,
        ),
    ensures
        k < t ==> cong(p, eval(z, h[k]), inputs[k]),
        k >= h.len() - s && is_unit(p, sep) ==> cong(
            p,
            eval(z, h[k]),
            outputs[k - (h.len() - s)],
        ),
{
    let (low, high) = (h.take(t), h.skip(t));
    let (front, back) = (h.take(h.len() - s), h.skip(h.len() - s));
    let x = h[k];
    let (in_value, out_value) = (
        eval(combined(input_basis, inputs), x),
        eval(combined(output_basis, outputs), x),
    );
    let (a, v) = (eval(z, x) - in_value, eval(monic_product(p, high), x));
    let (b, w) = (eval(z, x) - out_value, eval(monic_product(p, front), x));
    if k < t {
        assert(front[k] == x && low[k] == x);
        lemma_vanishes(p, front, k);
        lemma_cong_mul(p, b, b, w, 0);
        lemma_cong_mul(p, sep, sep, b * w, b * 0);
        assert(b * 0 == 0 && sep * 0 == 0);
        lemma_cong_sub(p, a * v + sep * (b * w), 0, sep * (b * w), 0);
        assert forall|j: int| 0 <= j < high.len() implies is_unit(p, x - #[trigger] high[j]) by {
            assert(high[j] == h[j + t]);
            assert(is_unit(p, h[k] - h[j + t]));
        }
        lemma_vanishes_at_no_point_apart(p, high, x);
        assert(a * v == v * a) by (nonlinear_arith);
        lemma_unit_cancels(p, v, a);
        lemma_interpolates(p, low, input_basis, inputs, k);
        lemma_cong_add(p, a, 0, in_value, inputs[k]);
    }
    if k >= h.len() - s && is_unit(p, sep) {
        let m = k - (h.len() - s);
        assert(high[k - t] == x && back[m] == x);
        lemma_vanishes(p, high, k - t);
        lemma_cong_mul(p, a, a, v, 0);
        assert(a * 0 == 0);
        lemma_cong_sub(p, a * v + sep * (b * w), 0, a * v, 0);
        lemma_unit_cancels(p, sep, b * w);
        assert forall|j: int| 0 <= j < front.len() implies is_unit(p, x - #[trigger] front[j]) by {
            assert(front[j] == h[j]);
            assert(is_unit(p, h[k] - h[j]));
        }
        lemma_vanishes_at_no_point_apart(p, front, x);
        assert(b * w == w * b) by (nonlinear_arith);
        lemma_unit_cancels(p, w, b);
        lemma_interpolates(p, back, output_basis, outputs, m);
        lemma_cong_add(p, b, 0, out_value, outputs[m]);
    }
}

/// A polynomial with the values of a well-formation oracle that is zero on a domain of points units
/// apart is a multiple of the vanishing polynomial of the domain.
pub proof fn lemma_oracle_divisible(
    p: int,
    h: Seq<int>,
    t: int,
    s: int,
    sep: int,
    z: Seq<int>,
    x_poly: Seq<int>,
    y_poly: Seq<int>,
    c: Seq<int>,
) -> (q: Seq<int>)
    requires
        p > 1,
        units_apart(p, h),
        c.len() >= h.len(),
        forall|x: int|
            cong(
                p,
                #[trigger] eval(c, x),
                well_formation_value(p, h, t, s, sep, z, x_poly, y_poly, x),
            ),
        forall|k: int|
            0 <= k < h.len() ==> cong(
                p,
                well_formation_value(p, h, t, s, sep, z, x_poly, y_poly, #[trigger] h[k]),
                0,
            ),
    ensures
        q.len() + h.len() == c.len(),
        forall|x: int| cong(p, #[trigger] eval(c, x), eval(q, x) * eval(monic_product(p, h), x)),
{
    assert forall|i: int| 0 <= i < h.len() implies cong(p, #[trigger] eval(c, h[i]), 0) by {}
    lemma_divisible_by_vanishing(p, c, h)
}

} // verus!
