//! The polynomials by which a verifier checks that a committed witness agrees with the public
//! inputs and outputs: Lagrange bases and vanishing polynomials over parts of a domain.

use vstd::prelude::*;

use crate::dense::DensePolynomial;
use crate::field::{values, FftField};
use crate::interpolation::lemma_vanishes;
use crate::modular::{
    cong, is_unit, lemma_cong_add, lemma_cong_mul, lemma_cong_residue, lemma_one_is_unit,
    lemma_residue_small, lemma_residues_equal, lemma_unit_not_zero, lemma_unit_product,
};
use crate::poly::{
    all_zero, canonical, eval, lemma_eval_constant, lemma_eval_product_linear, lemma_eval_reduced,
    lemma_product_linear, lemma_trimmed_unique, product, reduced, trimmed,
};

verus! {

/// No point occurs twice.
pub open spec fn distinct(xs: Seq<int>) -> bool {
    forall|i: int, j: int| 0 <= i < j < xs.len() ==> xs[i] != xs[j]
}

/// `ls` is the Lagrange basis of the points `xs` modulo `p`: as many polynomials as there are
/// points, each with as many coefficients as there are points, the `i`-th with the value one at the
/// `i`-th point and zero at each other point.
pub open spec fn is_lagrange_basis(p: int, xs: Seq<int>, ls: Seq<Seq<int>>) -> bool {
    &&& ls.len() == xs.len()
    &&& forall|i: int| 0 <= i < ls.len() ==> (#[trigger] ls[i]).len() == xs.len()
    &&& forall|i: int| 0 <= i < ls.len() ==> canonical(p, #[trigger] ls[i])
    &&& forall|i: int, j: int|
        0 <= i < ls.len() && 0 <= j < xs.len() ==> cong(
            p,
            #[trigger] eval(ls[i], xs[j]),
            if i == j {
                1
            } else {
                0
            },
        )
}

/// The product of `(X - x)` over the points `xs`, with coefficients reduced modulo `p`.
pub open spec fn monic_product(p: int, xs: Seq<int>) -> Seq<int>
    decreases xs.len(),
{
    if xs.len() == 0 {
        seq![1]
    } else {
        reduced(p, product(monic_product(p, xs.drop_last()), seq![(-xs.last()) % p, 1]))
    }
}

/// The product of `x - xs[k]` over all `k`.
pub open spec fn difference_product(xs: Seq<int>, x: int) -> int
    decreases xs.len(),
{
    if xs.len() == 0 {
        1
    } else {
        difference_product(xs.drop_last(), x) * (x - xs.last())
    }
}

/// The product of `ws[k] * (x - xs[k])` over all `k < n` but `i`.
spec fn ratio_product(xs: Seq<int>, ws: Seq<int>, i: int, x: int, n: nat) -> int
    decreases n,
{
    if n == 0 {
        1
    } else if n - 1 == i {
        ratio_product(xs, ws, i, x, (n - 1) as nat)
    } else {
        ratio_product(xs, ws, i, x, (n - 1) as nat) * (ws[n - 1] * (x - xs[n - 1]))
    }
}

proof fn lemma_ratio_at_other(xs: Seq<int>, ws: Seq<int>, i: int, k: int, n: nat)
    requires
        0 <= k < n,
        k != i,
    ensures
        ratio_product(xs, ws, i, xs[k], n) == 0,
    decreases n,
{
    let m = (n - 1) as nat;
    if m == k {
        assert(ws[k] * 0 == 0);
        assert(ratio_product(xs, ws, i, xs[k], m) * 0 == 0);
    } else {
        lemma_ratio_at_other(xs, ws, i, k, m);
        if m != i {
            assert(0 * (ws[m as int] * (xs[k] - xs[m as int])) == 0);
        }
    }
}

proof fn lemma_ratio_at_self(p: int, xs: Seq<int>, ws: Seq<int>, i: int, n: nat)
    requires
        p > 0,
        forall|k: int| 0 <= k < n && k != i ==> cong(p, (xs[i] - xs[k]) * #[trigger] ws[k], 1),
    ensures
        cong(p, ratio_product(xs, ws, i, xs[i], n), 1),
    decreases n,
{
    if n > 0 {
        let m = (n - 1) as nat;
        lemma_ratio_at_self(p, xs, ws, i, m);
        if m != i {
            let d = xs[i] - xs[m as int];
            let w = ws[m as int];
            assert(d * w == w * d) by (nonlinear_arith);
            lemma_cong_mul(p, ratio_product(xs, ws, i, xs[i], m), 1, w * d, 1);
        }
    }
}

proof fn lemma_ratio_agrees(xs: Seq<int>, ws: Seq<int>, vs: Seq<int>, i: int, x: int, n: nat)
    requires
        forall|k: int| 0 <= k < n ==> #[trigger] ws[k] == vs[k],
    ensures
        ratio_product(xs, ws, i, x, n) == ratio_product(xs, vs, i, x, n),
    decreases n,
{
    if n > 0 {
        lemma_ratio_agrees(xs, ws, vs, i, x, (n - 1) as nat);
        assert(ws[n - 1] == vs[n - 1]);
    }
}

/// Multiplication by a linear polynomial, where both leading coefficients are units: the product
/// has one coefficient more, none of them is trimmed, and its values are the products of the
/// values.
proof fn lemma_mul_linear(p: int, l: Seq<int>, f: Seq<int>)
    requires
        p > 1,
        l.len() > 0,
        f.len() == 2,
        is_unit(p, l.last()),
        is_unit(p, f[1]),
    ensures
        trimmed(reduced(p, product(l, f))) == reduced(p, product(l, f)),
        trimmed(reduced(p, product(l, f))).len() == l.len() + 1,
        trimmed(reduced(p, product(l, f))).last() == (l.last() * f[1]) % p,
        trimmed(reduced(p, product(l, f))).last() != 0,
        is_unit(p, trimmed(reduced(p, product(l, f))).last()),
        canonical(p, trimmed(reduced(p, product(l, f)))),
        forall|x: int|
            cong(
                p,
                #[trigger] eval(trimmed(reduced(p, product(l, f))), x),
                eval(l, x) * (f[0] + f[1] * x),
            ),
{
    let m = product(l, f);
    let r = reduced(p, m);
    lemma_product_linear(l, f);
    lemma_unit_product(p, l.last(), f[1]);
    let top = l.last() * f[1];
    lemma_cong_residue(p, top);
    assert(r.last() == top % p);
    assert(is_unit(p, r.last())) by {
        let w = choose|w: int| cong(p, #[trigger] (top * w), 1);
        lemma_cong_mul(p, top % p, top, w, w);
        assert(cong(p, (top % p) * w, 1));
    }
    lemma_unit_not_zero(p, r.last());
    assert(r.last() != 0);
    lemma_trimmed_unique(r, r.len());
    assert(r.take(r.len() as int) =~= r);
    assert forall|i: int| 0 <= i < r.len() implies 0 <= #[trigger] r[i] < p by {
        lemma_cong_residue(p, m[i]);
    }
    assert forall|x: int| cong(p, #[trigger] eval(r, x), eval(l, x) * (f[0] + f[1] * x)) by {
        lemma_eval_reduced(p, m, x);
        lemma_eval_product_linear(l, f, x);
    }
}

/// The product of `X - x` over given points: it has one coefficient more than there are points, the
/// last of them one, and its value at `x` is the product of the differences of `x` to the points.
pub proof fn lemma_monic_product(p: int, xs: Seq<int>)
    requires
        p > 1,
    ensures
        monic_product(p, xs).len() == xs.len() + 1,
        monic_product(p, xs).last() == 1,
        canonical(p, monic_product(p, xs)),
        forall|x: int|
            cong(p, #[trigger] eval(monic_product(p, xs), x), difference_product(xs, x)),
    decreases xs.len(),
{
    lemma_residue_small(p, 1);
    if xs.len() == 0 {
        assert forall|x: int| cong(
            p,
            #[trigger] eval(monic_product(p, xs), x),
            difference_product(xs, x),
        ) by {
            lemma_eval_constant(1, x);
        }
    } else {
        let l = monic_product(p, xs.drop_last());
        let f = seq![(-xs.last()) % p, 1];
        lemma_monic_product(p, xs.drop_last());
        lemma_one_is_unit(p);
        lemma_mul_linear(p, l, f);
        assert forall|x: int| cong(
            p,
            #[trigger] eval(monic_product(p, xs), x),
            difference_product(xs, x),
        ) by {
            lemma_cong_residue(p, -xs.last());
            lemma_cong_add(p, f[0], -xs.last(), x, x);
            lemma_cong_mul(
                p,
                eval(l, x),
                difference_product(xs.drop_last(), x),
                f[0] + f[1] * x,
                x - xs.last(),
            );
        }
    }
}

/// The product of the differences of `x` to given points, taken one after the other.
pub proof fn lemma_difference_fold<F: FftField>(points: Seq<F>, x: int)
    ensures
        difference_product(values(points), x) == points.fold_left(
            1int,
            |prod: int, point: F| prod * (x - point.val()),
        ),
    decreases points.len(),
{
    if points.len() > 0 {
        lemma_difference_fold(points.drop_last(), x);
        assert(values(points).drop_last() =~= values(points.drop_last()));
    }
}

/// The vanishing polynomial of two lists of points has, at each point, the product of the values of
/// their vanishing polynomials.
pub proof fn lemma_vanishing_of_both(p: int, xs: Seq<int>, ys: Seq<int>, x: int)
    requires
        p > 1,
    ensures
        cong(
            p,
            eval(monic_product(p, xs + ys), x),
            eval(monic_product(p, xs), x) * eval(monic_product(p, ys), x),
        ),
{
    lemma_monic_product(p, xs);
    lemma_monic_product(p, ys);
    lemma_monic_product(p, xs + ys);
    lemma_difference_of_both(xs, ys, x);
    lemma_cong_mul(
        p,
        eval(monic_product(p, xs), x),
        difference_product(xs, x),
        eval(monic_product(p, ys), x),
        difference_product(ys, x),
    );
}

proof fn lemma_difference_of_both(xs: Seq<int>, ys: Seq<int>, x: int)
    ensures
        difference_product(xs + ys, x) == difference_product(xs, x) * difference_product(ys, x),
    decreases ys.len(),
{
    let d = difference_product(xs, x);
    if ys.len() == 0 {
        assert(xs + ys =~= xs);
        assert(d * 1 == d);
    } else {
        let zs = ys.drop_last();
        lemma_difference_of_both(xs, zs, x);
        assert((xs + ys).drop_last() =~= xs + zs);
        let (e, f) = (difference_product(zs, x), x - ys.last());
        assert((d * e) * f == d * (e * f)) by (nonlinear_arith);
    }
}

/// Points are distinct exactly where no two positions hold the same one.
pub proof fn lemma_distinct(xs: Seq<int>)
    ensures
        distinct(xs) <==> xs.no_duplicates(),
{
}

/// Removes the zero coefficients at the end of `p`.
pub fn normalize<F: FftField>(p: DensePolynomial<F>) -> (r: DensePolynomial<F>)
    ensures
        r@ == trimmed(p@),
        r.coeffs@ == p.coeffs@.take(r@.len() as int),
        r.coeffs@.len() <= p.coeffs@.len(),
        r.coeffs@.len() > 0 ==> r.coeffs@.last().val() != 0,
        forall|i: int|
            r.coeffs@.len() <= i < p.coeffs@.len() ==> (#[trigger] p.coeffs@[i]).val() == 0,
{
    let mut q: DensePolynomial<F> = p;
    let ghost all = q.coeffs@;
    while q.coeffs.len() > 0 && q.coeffs[q.coeffs.len() - 1].is_zero()
        invariant
            q.coeffs@.len() <= all.len(),
            q.coeffs@ == all.take(q.coeffs@.len() as int),
            forall|i: int| q.coeffs@.len() <= i < all.len() ==> (#[trigger] all[i]).val() == 0,
        decreases q.coeffs@.len(),
    {
        let ghost before = q.coeffs@;
        q.coeffs.pop();
        assert(q.coeffs@ =~= all.take(q.coeffs@.len() as int));
        assert(all[before.len() - 1] == before.last());
    }
    proof {
        let k = q.coeffs@.len();
        assert(p@.take(k as int) =~= q@);
        lemma_trimmed_unique(p@, k);
    }
    q
}

/// The linear polynomial `X - x`.
fn linear_factor<F: FftField>(x: F) -> (r: DensePolynomial<F>)
    ensures
        r@ == seq![(-x.val()) % F::modulus(), 1],
{
    let coeffs: [F; 2] = [x.neg(), F::one()];
    let r = DensePolynomial::from_coefficients_slice(&coeffs);
    proof {
        let c = values(coeffs@);
        assert(c =~= seq![(-x.val()) % F::modulus(), 1]);
        lemma_trimmed_unique(c, 2);
        assert(c.take(2) =~= c);
    }
    r
}

/// The polynomial that is one everywhere.
fn constant_one<F: FftField>() -> (r: DensePolynomial<F>)
    ensures
        r@ == seq![1int],
{
    let coeffs: [F; 1] = [F::one()];
    let r = DensePolynomial::from_coefficients_slice(&coeffs);
    proof {
        let c = values(coeffs@);
        assert(c =~= seq![1int]);
        lemma_trimmed_unique(c, 1);
        assert(c.take(1) =~= c);
    }
    r
}

/// Constructs the polynomial with leading coefficient one whose roots are the given points: the
/// product of `X - x` over all of them.
pub fn construct_vanishing<F: FftField>(evaluation_domain: &[F]) -> (r: DensePolynomial<F>)
    requires
        evaluation_domain@.len() + 2 <= F::max_domain_size(),
    ensures
        r@ == monic_product(F::modulus(), values(evaluation_domain@)),
        r@.len() == evaluation_domain@.len() + 1,
        r@.last() == 1,
        canonical(F::modulus(), r@),
        forall|k: int|
            0 <= k < evaluation_domain@.len() ==> cong(
                F::modulus(),
                eval(r@, (#[trigger] evaluation_domain@[k]).val()),
                0,
            ),
        forall|x: int|
            cong(
                F::modulus(),
                #[trigger] eval(r@, x),
                evaluation_domain@.fold_left(
                    1int,
                    |prod: int, point: F| prod * (x - point.val()),
                ),
            ),
{
    let ghost p = F::modulus();
    let ghost xs = values(evaluation_domain@);
    proof {
        F::lemma_modulus();
        lemma_residue_small(p, 1);
        assert(xs.take(0) =~= Seq::empty());
    }
    let mut v_h: DensePolynomial<F> = constant_one();
    for k in 0..evaluation_domain.len()
        invariant
            p == F::modulus(),
            p > 1,
            1int % p == 1,
            xs == values(evaluation_domain@),
            evaluation_domain@.len() + 2 <= F::max_domain_size(),
            v_h@ == monic_product(p, xs.take(k as int)),
            v_h@.len() == k + 1,
            v_h@.last() == 1,
            canonical(p, v_h@),
    {
        let factor: DensePolynomial<F> = linear_factor(evaluation_domain[k]);
        let ghost before = v_h@;
        v_h = normalize(F::mul_poly(&v_h, &factor));
        proof {
            lemma_one_is_unit(p);
            lemma_mul_linear(p, before, factor@);
            assert(xs.take(k + 1).drop_last() =~= xs.take(k as int));
            assert(xs.take(k + 1).last() == xs[k as int]);
            let m = reduced(p, product(before, factor@));
            lemma_trimmed_unique(m, m.len());
            assert(m.take(m.len() as int) =~= m);
        }
    }
    proof {
        assert(xs.take(xs.len() as int) =~= xs);
        assert forall|k: int| 0 <= k < evaluation_domain@.len() implies cong(
            p,
            eval(v_h@, (#[trigger] evaluation_domain@[k]).val()),
            0,
        ) by {
            lemma_vanishes(p, xs, k);
        }
        lemma_monic_product(p, xs);
        assert forall|x: int| cong(
            p,
            #[trigger] eval(v_h@, x),
            evaluation_domain@.fold_left(1int, |prod: int, point: F| prod * (x - point.val())),
        ) by {
            lemma_difference_fold(evaluation_domain@, x);
        }
    }
    v_h
}

/// The linear polynomial `(X - x) * w`, for an invertible `w`.
fn scaled_factor<F: FftField>(x: F, w: F) -> (r: DensePolynomial<F>)
    requires
        is_unit(F::modulus(), w.val()),
    ensures
        r@.len() == 2,
        r@[1] == w.val(),
        forall|y: int|
            cong(F::modulus(), #[trigger] (r@[0] + r@[1] * y), w.val() * (y - x.val())),
{
    let nom: DensePolynomial<F> = linear_factor(x);
    let r: DensePolynomial<F> = normalize(F::scale_poly(&nom, w));
    proof {
        let p = F::modulus();
        F::lemma_modulus();
        w.lemma_val();
        lemma_unit_not_zero(p, w.val());
        assert(w.val() != 0);
        assert(!all_zero(nom@)) by {
            assert(nom@[1] != 0);
        }
        let raw = Seq::new(2, |i: int| nom@[i] * w.val());
        let c = reduced(p, raw);
        assert(c =~= reduced(p, Seq::new(nom@.len(), |i: int| nom@[i] * w.val())));
        assert(nom@[1] * w.val() == w.val());
        lemma_residue_small(p, w.val());
        lemma_trimmed_unique(c, 2);
        assert(c.take(2) =~= c);
        let n0 = (-x.val()) % p;
        assert forall|y: int| cong(p, #[trigger] (r@[0] + r@[1] * y), w.val() * (y - x.val())) by {
            lemma_cong_residue(p, n0 * w.val());
            lemma_cong_residue(p, -x.val());
            lemma_cong_mul(p, n0, -x.val(), w.val(), w.val());
            lemma_cong_add(p, r@[0], (-x.val()) * w.val(), r@[1] * y, r@[1] * y);
            let (a, b) = (w.val(), x.val());
            assert((-b) * a + a * y == a * (y - b)) by (nonlinear_arith);
        }
    }
    r
}

/// Constructs the polynomial that is one at the `i`-th point and zero at the others.
fn lagrange_polynomial<F: FftField>(evaluation_domain: &[F], i: usize) -> (l_i: DensePolynomial<F>)
    requires
        i < evaluation_domain@.len(),
        distinct(values(evaluation_domain@)),
        evaluation_domain@.len() + 1 <= F::max_domain_size(),
    ensures
        l_i@.len() == evaluation_domain@.len(),
        l_i@.last() != 0,
        canonical(F::modulus(), l_i@),
        forall|j: int|
            0 <= j < evaluation_domain@.len() ==> cong(
                F::modulus(),
                eval(l_i@, (#[trigger] evaluation_domain@[j]).val()),
                if i == j {
                    1
                } else {
                    0
                },
            ),
{
    let ghost p = F::modulus();
    let ghost xs = values(evaluation_domain@);
    let ghost mut ws: Seq<int> = Seq::empty();
    let x_i: F = evaluation_domain[i];
    let mut l_i: DensePolynomial<F> = constant_one();
    proof {
        F::lemma_modulus();
        lemma_one_is_unit(p);
        assert forall|x: int| cong(p, #[trigger] eval(l_i@, x), 1) by {
            lemma_eval_constant(1, x);
        }
    }
    for j in 0..evaluation_domain.len()
        invariant
            p == F::modulus(),
            p > 1,
            xs == values(evaluation_domain@),
            distinct(xs),
            i < xs.len(),
            x_i == evaluation_domain@[i as int],
            evaluation_domain@.len() + 1 <= F::max_domain_size(),
            ws.len() == j,
            forall|k: int| 0 <= k < j && k != i ==> cong(p, (xs[i as int] - xs[k]) * #[trigger] ws[k], 1),
            l_i@.len() == (if i < j { j as int } else { j + 1 }),
            is_unit(p, l_i@.last()),
            canonical(p, l_i@),
            forall|x: int|
                cong(
                    p,
                    #[trigger] eval(l_i@, x),
                    ratio_product(xs, ws, i as int, x, j as nat),
                ),
    {
        let ghost old_ws = ws;
        if j != i {
            let x_j: F = evaluation_domain[j];
            let denom: F = x_i.sub(x_j);
            let ghost d = x_i.val() - x_j.val();
            proof {
                lemma_cong_residue(p, d);
                if denom.val() == 0 {
                    x_i.lemma_val();
                    x_j.lemma_val();
                    lemma_cong_add(p, d, 0, x_j.val(), x_j.val());
                    lemma_residues_equal(p, x_i.val(), x_j.val());
                    assert(xs[i as int] == xs[j as int]);
                }
            }
            let inverse: Option<F> = denom.inverse();
            let w: F = inverse.unwrap();
            proof {
                lemma_cong_mul(p, denom.val(), d, w.val(), w.val());
                assert(denom.val() * w.val() == w.val() * denom.val()) by (nonlinear_arith);
                assert(cong(p, w.val() * denom.val(), 1));
            }
            let factor: DensePolynomial<F> = scaled_factor(x_j, w);
            let ghost before = l_i@;
            l_i = normalize(F::mul_poly(&l_i, &factor));
            proof {
                ws = ws.push(w.val());
                lemma_mul_linear(p, before, factor@);
                let m = reduced(p, product(before, factor@));
                lemma_trimmed_unique(m, m.len());
                assert(m.take(m.len() as int) =~= m);
                assert forall|x: int| cong(
                    p,
                    #[trigger] eval(l_i@, x),
                    ratio_product(xs, ws, i as int, x, (j + 1) as nat),
                ) by {
                    lemma_ratio_agrees(xs, old_ws, ws, i as int, x, j as nat);
                    assert(cong(p, eval(before, x), ratio_product(xs, old_ws, i as int, x, j as nat)));
                    assert(cong(
                        p,
                        factor@[0] + factor@[1] * x,
                        w.val() * (x - xs[j as int]),
                    ));
                    lemma_cong_mul(
                        p,
                        eval(before, x),
                        ratio_product(xs, ws, i as int, x, j as nat),
                        factor@[0] + factor@[1] * x,
                        w.val() * (x - xs[j as int]),
                    );
                }
            }
        } else {
            proof {
                ws = ws.push(0);
                assert forall|x: int| cong(
                    p,
                    #[trigger] eval(l_i@, x),
                    ratio_product(xs, ws, i as int, x, (j + 1) as nat),
                ) by {
                    lemma_ratio_agrees(xs, old_ws, ws, i as int, x, j as nat);
                }
            }
        }
    }
    proof {
        let n = xs.len();
        lemma_unit_not_zero(p, l_i@.last());
        assert forall|j: int| 0 <= j < n implies cong(
            p,
            eval(l_i@, (#[trigger] evaluation_domain@[j]).val()),
            if i == j {
                1
            } else {
                0
            },
        ) by {
            assert(xs[j] == evaluation_domain@[j].val());
            if i == j {
                lemma_ratio_at_self(p, xs, ws, j, n);
            } else {
                lemma_ratio_at_other(xs, ws, i as int, j, n);
            }
        }
    }
    normalize(l_i)
}

/// Given the x coordinates, constructs the Lagrange basis polynomials.
pub fn construct_lagrange_basis<F: FftField>(evaluation_domain: &[F]) -> (bases: Vec<
    DensePolynomial<F>,
>)
    requires
        distinct(values(evaluation_domain@)),
        evaluation_domain@.len() + 1 <= F::max_domain_size(),
    ensures
        is_lagrange_basis(
            F::modulus(),
            values(evaluation_domain@),
            Seq::new(bases@.len(), |i: int| bases@[i]@),
        ),
        forall|i: int| 0 <= i < bases@.len() ==> (#[trigger] bases@[i])@.last() != 0,
        bases@.len() == evaluation_domain@.len(),
        forall|i: int|
            0 <= i < bases@.len() ==> (#[trigger] bases@[i])@.len() == evaluation_domain@.len(),
        forall|i: int, j: int|
            0 <= i < bases@.len() && 0 <= j < evaluation_domain@.len() ==> cong(
                F::modulus(),
                #[trigger] eval(bases@[i]@, evaluation_domain@[j].val()),
                if i == j {
                    1
                } else {
                    0
                },
            ),
{
    let ghost p = F::modulus();
    let ghost xs = values(evaluation_domain@);
    let mut bases: Vec<DensePolynomial<F>> = Vec::with_capacity(evaluation_domain.len());
    for i in 0..evaluation_domain.len()
        invariant
            p == F::modulus(),
            xs == values(evaluation_domain@),
            distinct(xs),
            evaluation_domain@.len() + 1 <= F::max_domain_size(),
            bases@.len() == i,
            forall|k: int|
                0 <= k < i ==> {
                    &&& (#[trigger] bases@[k])@.len() == xs.len()
                    &&& bases@[k]@.last() != 0
                    &&& canonical(p, bases@[k]@)
                    &&& forall|j: int|
                        0 <= j < xs.len() ==> cong(
                            p,
                            eval(bases@[k]@, #[trigger] xs[j]),
                            if k == j {
                                1
                            } else {
                                0
                            },
                        )
                },
    {
        let l_i: DensePolynomial<F> = lagrange_polynomial(evaluation_domain, i);
        proof {
            assert forall|j: int| 0 <= j < xs.len() implies cong(
                p,
                eval(l_i@, #[trigger] xs[j]),
                if i == j {
                    1
                } else {
                    0
                },
            ) by {
                assert(xs[j] == evaluation_domain@[j].val());
            }
        }
        bases.push(l_i);
    }
    proof {
        assert forall|i: int, j: int|
            0 <= i < bases@.len() && 0 <= j < evaluation_domain@.len() implies cong(
            p,
            #[trigger] eval(bases@[i]@, evaluation_domain@[j].val()),
            if i == j {
                1
            } else {
                0
            },
        ) by {
            assert(xs[j] == evaluation_domain@[j].val());
        }
    }
    bases
}

} // verus!
