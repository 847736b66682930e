use ark_ff::{BigInteger256, Field, One, PrimeField, Zero};
use ark_poly::univariate::{DenseOrSparsePolynomial, DensePolynomial as ArkPolynomial};
use ark_poly::{EvaluationDomain, GeneralEvaluationDomain, Polynomial};
use functional_commitment::bls12_381;
use functional_commitment::bn254;
use functional_commitment::dense::DensePolynomial;
use functional_commitment::field::FftField;
use functional_commitment::well_formation::{
    construct_lagrange_basis, construct_vanishing, normalize,
};

type ArkBls = ark_bls12_381::Fr;
type ArkBn = ark_bn254::Fr;

fn bls(x: ArkBls) -> bls12_381::Fr {
    bls12_381::Fr::from_repr(x.into_repr().0).unwrap()
}

fn bls_polynomial(p: &DensePolynomial<bls12_381::Fr>) -> ArkPolynomial<ArkBls> {
    let coeffs = p.coeffs.iter().map(|c| ArkBls::from(BigInteger256::new(c.into_repr())));
    ArkPolynomial { coeffs: coeffs.collect() }
}

fn bn(x: ArkBn) -> bn254::Fr {
    bn254::Fr::from_repr(x.into_repr().0).unwrap()
}

fn bn_polynomial(p: &DensePolynomial<bn254::Fr>) -> ArkPolynomial<ArkBn> {
    let coeffs = p.coeffs.iter().map(|c| ArkBn::from(BigInteger256::new(c.into_repr())));
    ArkPolynomial { coeffs: coeffs.collect() }
}

fn numbers(ns: &[i64]) -> Vec<ArkBn> {
    ns.iter()
        .map(|&n| if n < 0 { -ArkBn::from(n.unsigned_abs()) } else { ArkBn::from(n as u64) })
        .collect()
}

fn points(ns: &[i64]) -> Vec<bn254::Fr> {
    numbers(ns).into_iter().map(bn).collect()
}

fn polynomial(ns: &[i64]) -> DensePolynomial<bn254::Fr> {
    DensePolynomial { coeffs: points(ns) }
}

fn interpolate(xs: &[ArkBn], ys: &[ArkBn]) -> ArkPolynomial<ArkBn> {
    let roots: Vec<bn254::Fr> = xs.iter().map(|&x| bn(x)).collect();
    let mut sum = ArkPolynomial::<ArkBn>::default();
    for (l_i, y) in construct_lagrange_basis(&roots).iter().zip(ys) {
        sum += &(&bn_polynomial(l_i) * *y);
        while sum.coeffs.last().map_or(false, |c| c.is_zero()) {
            sum.coeffs.pop();
        }
    }
    sum
}

// The sum of a Lagrange basis over part of a large domain ends in zero coefficients, and taking its
// degree panics until they are removed.
#[test]
fn test_x_poly_trailing_zeros_from_lagrange_sum() {
    let domain = GeneralEvaluationDomain::<ArkBls>::new(256).unwrap();
    let elems: Vec<bls12_381::Fr> = domain.elements().map(bls).collect();

    let bases = construct_lagrange_basis(&elems[..3]);
    let mut x_poly = ArkPolynomial::<ArkBls>::default();
    for l_i in &bases {
        let scaled = FftField::scale_poly(l_i, <bls12_381::Fr as FftField>::one());
        x_poly += &bls_polynomial(&scaled);
    }
    let x_poly = normalize(DensePolynomial { coeffs: x_poly.coeffs.into_iter().map(bls).collect() });

    let x_poly = bls_polynomial(&x_poly);
    let _ = x_poly.degree();
    assert_eq!(x_poly.coeffs, vec![ArkBls::one()]);
}

#[test]
fn normalize_removes_zeros_at_the_end_only() {
    let cases: [(&[i64], &[i64]); 6] = [
        (&[1, 2, 0, 0], &[1, 2]),
        (&[0, 0, 3, 0], &[0, 0, 3]),
        (&[0, 1], &[0, 1]),
        (&[5], &[5]),
        (&[0, 0], &[]),
        (&[], &[]),
    ];
    for (given, wanted) in cases {
        let once = normalize(polynomial(given));
        assert_eq!(bn_polynomial(&once).coeffs, numbers(wanted));
        let twice = normalize(once);
        assert_eq!(bn_polynomial(&twice).coeffs, numbers(wanted));
    }
}

#[test]
fn normalize_keeps_values() {
    let given = polynomial(&[7, -3, 2, 0, 0]);
    let trimmed = bn_polynomial(&normalize(given));
    assert_eq!(trimmed.evaluate(&ArkBn::from(10u64)), ArkBn::from(177u64));
}

#[test]
fn polynomials_that_differ_in_zeros_at_the_end_have_one_normal_form() {
    let p = bn_polynomial(&normalize(polynomial(&[4, 0, 9, 0])));
    let q = bn_polynomial(&normalize(polynomial(&[4, 0, 9, 0, 0, 0])));
    let r = bn_polynomial(&normalize(polynomial(&[4, 0, 8, 0])));
    assert_eq!(p, q);
    assert_ne!(p, r);
}

#[test]
fn coefficients_are_taken_without_zeros_at_the_end() {
    let p = DensePolynomial::from_coefficients_slice(&points(&[3, 0, 1, 0]));
    assert_eq!(bn_polynomial(&p).coeffs, numbers(&[3, 0, 1]));
    let zero = DensePolynomial::from_coefficients_slice(&points(&[0, 0]));
    assert!(zero.coeffs.is_empty());
}

#[test]
fn vanishing_polynomial_of_no_points_is_one() {
    let v = construct_vanishing::<bn254::Fr>(&[]);
    assert_eq!(bn_polynomial(&v).coeffs, numbers(&[1]));
}

#[test]
fn vanishing_polynomial_is_the_product_of_linear_factors() {
    let v = construct_vanishing(&points(&[2, 3]));
    assert_eq!(bn_polynomial(&v).coeffs, numbers(&[6, -5, 1]));
    let v = construct_vanishing(&points(&[1, 2, 3]));
    assert_eq!(bn_polynomial(&v).coeffs, numbers(&[-6, 11, -6, 1]));
}

#[test]
fn vanishing_polynomial_keeps_repeated_and_zero_points() {
    let v = construct_vanishing(&points(&[4, 4]));
    assert_eq!(bn_polynomial(&v).coeffs, numbers(&[16, -8, 1]));
    let v = construct_vanishing(&points(&[0, 0, 1]));
    assert_eq!(bn_polynomial(&v).coeffs, numbers(&[0, 0, -1, 1]));
}

#[test]
fn vanishing_polynomial_is_zero_at_its_points_alone() {
    let v = bn_polynomial(&construct_vanishing(&points(&[5, 9, -1])));
    for x in numbers(&[5, 9, -1]) {
        assert!(v.evaluate(&x).is_zero());
    }
    assert_eq!(v.evaluate(&ArkBn::from(6u64)), -ArkBn::from(21u64));
    assert!(!v.evaluate(&ArkBn::zero()).is_zero());
}

#[test]
fn vanishing_polynomial_of_a_whole_domain() {
    let domain = GeneralEvaluationDomain::<ArkBls>::new(8).unwrap();
    let elems: Vec<bls12_381::Fr> = domain.elements().map(bls).collect();
    let v = bls_polynomial(&construct_vanishing(&elems));
    let mut wanted = vec![ArkBls::zero(); 9];
    wanted[0] = -ArkBls::one();
    wanted[8] = ArkBls::one();
    assert_eq!(v.coeffs, wanted);
}

#[test]
fn lagrange_basis_of_no_points_is_empty() {
    assert!(construct_lagrange_basis::<bn254::Fr>(&[]).is_empty());
}

#[test]
fn lagrange_basis_of_one_point_is_one() {
    let bases = construct_lagrange_basis(&points(&[5]));
    assert_eq!(bases.len(), 1);
    assert_eq!(bn_polynomial(&bases[0]).coeffs, numbers(&[1]));
}

#[test]
fn lagrange_basis_of_two_points() {
    let bases = construct_lagrange_basis(&points(&[1, 2]));
    assert_eq!(bases.len(), 2);
    assert_eq!(bn_polynomial(&bases[0]).coeffs, numbers(&[2, -1]));
    assert_eq!(bn_polynomial(&bases[1]).coeffs, numbers(&[-1, 1]));
}

#[test]
fn lagrange_basis_of_three_points() {
    let half = ArkBn::from(2u64).inverse().unwrap();
    let bases = construct_lagrange_basis(&points(&[0, 1, 2]));
    let wanted: [&[i64]; 3] = [&[2, -3, 1], &[0, 4, -2], &[0, -1, 1]];
    for (l_i, doubled) in bases.iter().zip(wanted) {
        let coeffs: Vec<ArkBn> = numbers(doubled).into_iter().map(|c| c * half).collect();
        assert_eq!(bn_polynomial(l_i).coeffs, coeffs);
    }
}

#[test]
fn lagrange_basis_is_one_at_its_own_point_and_zero_at_others() {
    let xs = numbers(&[3, -8, 0, 21, 1000]);
    let roots: Vec<bn254::Fr> = xs.iter().map(|&x| bn(x)).collect();
    for (i, l_i) in construct_lagrange_basis(&roots).iter().enumerate() {
        let l_i = bn_polynomial(l_i);
        assert_eq!(l_i.degree(), 4);
        for (j, x) in xs.iter().enumerate() {
            let wanted = if i == j { ArkBn::one() } else { ArkBn::zero() };
            assert_eq!(l_i.evaluate(x), wanted);
        }
    }
}

#[test]
fn lagrange_basis_follows_the_order_of_the_points() {
    let bases = construct_lagrange_basis(&points(&[7, 11, 13]));
    let turned = construct_lagrange_basis(&points(&[13, 7, 11]));
    assert_eq!(bn_polynomial(&turned[0]), bn_polynomial(&bases[2]));
    assert_eq!(bn_polynomial(&turned[1]), bn_polynomial(&bases[0]));
    assert_eq!(bn_polynomial(&turned[2]), bn_polynomial(&bases[1]));
}

#[test]
fn combination_of_a_lagrange_basis_interpolates() {
    let xs = numbers(&[1, 2, 3]);
    let ys = numbers(&[10, 20, 5]);
    let p = interpolate(&xs, &ys);
    for (x, y) in xs.iter().zip(&ys) {
        assert_eq!(p.evaluate(x), *y);
    }
}

#[test]
fn values_at_as_many_points_determine_a_polynomial() {
    let p = ArkPolynomial { coeffs: numbers(&[4, -7, 9]) };
    let xs = numbers(&[5, 6, -2]);
    let ys: Vec<ArkBn> = xs.iter().map(|x| p.evaluate(x)).collect();
    assert_eq!(interpolate(&xs, &ys), p);
}

#[test]
fn sum_of_a_lagrange_basis_is_one() {
    let xs = numbers(&[2, 4, 8, 16]);
    let p = interpolate(&xs, &numbers(&[1, 1, 1, 1]));
    assert_eq!(p.coeffs, numbers(&[1]));
}

#[test]
fn polynomial_with_given_roots_is_a_multiple_of_their_vanishing_polynomial() {
    let v = bn_polynomial(&construct_vanishing(&points(&[2, -3])));
    let p = &ArkPolynomial { coeffs: numbers(&[5, 1]) } * &v;
    let (q, r) = DenseOrSparsePolynomial::from(&p)
        .divide_with_q_and_r(&DenseOrSparsePolynomial::from(&v))
        .unwrap();
    assert_eq!(q.coeffs, numbers(&[5, 1]));
    assert!(r.is_zero());
}

// The oracle `(z - x) * v_x + sep * (z - y) * v_y` over a domain whose first points carry the inputs
// and whose last points carry the outputs.
#[test]
fn well_formation_oracle_is_zero_on_the_domain() {
    let (size, n_inputs, n_outputs) = (256, 3, 2);
    let domain = GeneralEvaluationDomain::<ArkBn>::new(size).unwrap();
    let elems: Vec<ArkBn> = domain.elements().collect();
    let roots: Vec<bn254::Fr> = elems.iter().map(|&x| bn(x)).collect();

    let mut chain = vec![ArkBn::one(), ArkBn::one()];
    for i in 2..130usize {
        chain.push(chain[i - 1] + chain[i - 2]);
    }
    let inputs = vec![ArkBn::one(); n_inputs];
    let outputs = vec![chain[128], chain[129]];

    let x_poly = interpolate(&elems[..n_inputs], &inputs);
    let y_poly = interpolate(&elems[size - n_outputs..], &outputs);
    let v_x = bn_polynomial(&construct_vanishing(&roots[n_inputs..]));
    let v_y = bn_polynomial(&construct_vanishing(&roots[..size - n_outputs]));

    let z_evals: Vec<ArkBn> = (0..size)
        .map(|i| {
            if i < n_inputs {
                inputs[i]
            } else if i >= size - n_outputs {
                outputs[i - (size - n_outputs)]
            } else {
                ArkBn::from(i as u64)
            }
        })
        .collect();
    let z = ArkPolynomial { coeffs: domain.ifft(&z_evals) };

    let sep = ArkBn::from(2u64);
    for r in &elems {
        let zr = z.evaluate(r);
        let value = (zr - x_poly.evaluate(r)) * v_x.evaluate(r)
            + sep * (zr - y_poly.evaluate(r)) * v_y.evaluate(r);
        assert!(value.is_zero());
    }

    let oracle = &(&(&z - &x_poly) * &v_x) + &(&(&(&z - &y_poly) * &v_y) * sep);
    let v_h = bn_polynomial(&construct_vanishing(&roots));
    let (_, remainder) = DenseOrSparsePolynomial::from(&oracle)
        .divide_with_q_and_r(&DenseOrSparsePolynomial::from(&v_h))
        .unwrap();
    assert!(remainder.is_zero());
}

#[test]
fn well_formation_oracle_shows_a_wrong_input() {
    let xs = numbers(&[1, 2, 3, 4]);
    let roots = points(&[1, 2, 3, 4]);
    let x_poly = interpolate(&xs[..2], &numbers(&[8, 9]));
    let v_x = bn_polynomial(&construct_vanishing(&roots[2..]));
    let z = interpolate(&xs, &numbers(&[8, 7, 0, 0]));
    let value = |r: &ArkBn| (z.evaluate(r) - x_poly.evaluate(r)) * v_x.evaluate(r);
    assert!(value(&xs[0]).is_zero());
    assert!(!value(&xs[1]).is_zero());
}

#[test]
fn well_formation_oracle_that_is_zero_forces_the_values() {
    let domain = GeneralEvaluationDomain::<ArkBn>::new(8).unwrap();
    let elems: Vec<ArkBn> = domain.elements().collect();
    let roots: Vec<bn254::Fr> = elems.iter().map(|&x| bn(x)).collect();
    let x_poly = interpolate(&elems[..2], &numbers(&[4, 5]));
    let y_poly = interpolate(&elems[7..], &numbers(&[6]));
    let v_x = bn_polynomial(&construct_vanishing(&roots[2..]));
    let v_y = bn_polynomial(&construct_vanishing(&roots[..7]));
    let zero_at = |values: &[i64]| -> Vec<bool> {
        let z = interpolate(&elems, &numbers(values));
        elems
            .iter()
            .map(|r| {
                let value = (z.evaluate(r) - x_poly.evaluate(r)) * v_x.evaluate(r)
                    + ArkBn::from(3u64) * (z.evaluate(r) - y_poly.evaluate(r)) * v_y.evaluate(r);
                value.is_zero()
            })
            .collect()
    };
    assert_eq!(zero_at(&[4, 5, 9, 8, 7, 6, 5, 6]), vec![true; 8]);
    let wrong = zero_at(&[4, 1, 9, 8, 7, 6, 5, 2]);
    assert_eq!(wrong, vec![true, false, true, true, true, true, true, false]);
}

#[test]
fn vanishing_polynomial_is_invertible_apart_from_its_points() {
    let v = bn_polynomial(&construct_vanishing(&points(&[2, 3])));
    let x = ArkBn::from(7u64);
    for point in numbers(&[2, 3]) {
        assert!((x - point).inverse().is_some());
    }
    assert_eq!(v.evaluate(&x), ArkBn::from(20u64));
    assert!(v.evaluate(&x).inverse().is_some());
}
