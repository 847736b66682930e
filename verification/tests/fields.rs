use ark_ff::{FpParameters, PrimeField};
use functional_commitment::bls12_381;
use functional_commitment::bn254;
use functional_commitment::dense::DensePolynomial;
use functional_commitment::field::FftField;

const BN254_ORDER: [u64; 4] =
    [4891460686036598785, 2896914383306846353, 13281191951274694749, 3486998266802970665];
const BLS12_381_ORDER: [u64; 4] =
    [18446744069414584321, 6034159408538082302, 3691218898639771653, 8353516859464449352];

fn below(order: [u64; 4], n: u64) -> [u64; 4] {
    [order[0] - n, order[1], order[2], order[3]]
}

fn bn_limbs(p: &DensePolynomial<bn254::Fr>) -> Vec<[u64; 4]> {
    p.coeffs.iter().map(|c| c.into_repr()).collect()
}

fn bls_limbs(p: &DensePolynomial<bls12_381::Fr>) -> Vec<[u64; 4]> {
    p.coeffs.iter().map(|c| c.into_repr()).collect()
}

fn small(ns: &[u64]) -> Vec<[u64; 4]> {
    ns.iter().map(|&n| [n, 0, 0, 0]).collect()
}

#[test]
fn residues_lie_below_the_order() {
    assert!(bn254::Fr::from_repr(BN254_ORDER).is_none());
    assert!(bn254::Fr::from_repr([0, 0, 0, u64::MAX]).is_none());
    let top = below(BN254_ORDER, 1);
    assert_eq!(bn254::Fr::from_repr(top).unwrap().into_repr(), top);

    assert!(bls12_381::Fr::from_repr(BLS12_381_ORDER).is_none());
    assert!(bls12_381::Fr::from_repr([u64::MAX, 0, 0, u64::MAX]).is_none());
    let top = below(BLS12_381_ORDER, 1);
    assert_eq!(bls12_381::Fr::from_repr(top).unwrap().into_repr(), top);
}

#[test]
fn residues_below_the_order_in_a_high_limb() {
    let limbs = [u64::MAX, u64::MAX, u64::MAX, BN254_ORDER[3] - 1];
    assert_eq!(bn254::Fr::from_repr(limbs).unwrap().into_repr(), limbs);
    let limbs = [u64::MAX, BLS12_381_ORDER[1] - 1, BLS12_381_ORDER[2], BLS12_381_ORDER[3]];
    assert_eq!(bls12_381::Fr::from_repr(limbs).unwrap().into_repr(), limbs);
}

#[test]
fn orders_are_those_of_the_curves() {
    assert_eq!(<ark_bn254::Fr as PrimeField>::Params::MODULUS.0, BN254_ORDER);
    assert_eq!(<ark_bls12_381::Fr as PrimeField>::Params::MODULUS.0, BLS12_381_ORDER);
}

#[test]
fn numbers_stand_for_themselves() {
    assert_eq!(bn254::Fr::from_u64(u64::MAX).into_repr(), [u64::MAX, 0, 0, 0]);
    assert_eq!(bls12_381::Fr::from_u64(77).into_repr(), [77, 0, 0, 0]);
    assert_eq!(<bn254::Fr as FftField>::one().into_repr(), [1, 0, 0, 0]);
    assert_eq!(<bls12_381::Fr as FftField>::one().into_repr(), [1, 0, 0, 0]);
}

#[test]
fn zero_is_told_apart() {
    assert!(bn254::Fr::from_u64(0).is_zero());
    assert!(!bn254::Fr::from_u64(1).is_zero());
    assert!(!bn254::Fr::from_repr([0, 0, 0, 1]).unwrap().is_zero());
    assert!(bls12_381::Fr::from_u64(0).is_zero());
    assert!(!bls12_381::Fr::from_repr([0, 1, 0, 0]).unwrap().is_zero());
}

#[test]
fn negation_counts_down_from_the_order() {
    assert_eq!(bn254::Fr::from_u64(5).neg().into_repr(), below(BN254_ORDER, 5));
    assert_eq!(bn254::Fr::from_u64(0).neg().into_repr(), [0; 4]);
    assert_eq!(bls12_381::Fr::from_u64(5).neg().into_repr(), below(BLS12_381_ORDER, 5));
    assert_eq!(bls12_381::Fr::from_u64(0).neg().into_repr(), [0; 4]);
}

#[test]
fn differences_wrap_around_the_order() {
    let (a, b) = (bn254::Fr::from_u64(9), bn254::Fr::from_u64(4));
    assert_eq!(a.sub(b).into_repr(), [5, 0, 0, 0]);
    assert_eq!(b.sub(a).into_repr(), below(BN254_ORDER, 5));
    let (a, b) = (bls12_381::Fr::from_u64(9), bls12_381::Fr::from_u64(4));
    assert_eq!(a.sub(b).into_repr(), [5, 0, 0, 0]);
    assert_eq!(b.sub(a).into_repr(), below(BLS12_381_ORDER, 5));
}

#[test]
fn each_number_but_zero_has_an_inverse() {
    assert!(bn254::Fr::from_u64(0).inverse().is_none());
    assert!(bls12_381::Fr::from_u64(0).inverse().is_none());

    let inverse = bn254::Fr::from_u64(12).inverse().unwrap();
    let product = <bn254::Fr as FftField>::scale_poly(
        &DensePolynomial { coeffs: vec![bn254::Fr::from_u64(12)] },
        inverse,
    );
    assert_eq!(bn_limbs(&product), small(&[1]));

    let inverse = bls12_381::Fr::from_u64(12).inverse().unwrap();
    let product = <bls12_381::Fr as FftField>::scale_poly(
        &DensePolynomial { coeffs: vec![bls12_381::Fr::from_u64(12)] },
        inverse,
    );
    assert_eq!(bls_limbs(&product), small(&[1]));
}

#[test]
fn scaling_multiplies_each_coefficient() {
    let of = |ns: &[u64]| DensePolynomial {
        coeffs: ns.iter().map(|&n| bn254::Fr::from_u64(n)).collect(),
    };
    let three = bn254::Fr::from_u64(3);
    let zero = bn254::Fr::from_u64(0);
    assert_eq!(bn_limbs(&FftField::scale_poly(&of(&[1, 0, 5, 0]), three)), small(&[3, 0, 15, 0]));
    assert!(FftField::scale_poly(&of(&[0, 0]), three).coeffs.is_empty());
    assert!(FftField::scale_poly(&of(&[1, 2]), zero).coeffs.is_empty());

    let of = |ns: &[u64]| DensePolynomial {
        coeffs: ns.iter().map(|&n| bls12_381::Fr::from_u64(n)).collect(),
    };
    let three = bls12_381::Fr::from_u64(3);
    let zero = bls12_381::Fr::from_u64(0);
    assert_eq!(bls_limbs(&FftField::scale_poly(&of(&[1, 0, 5, 0]), three)), small(&[3, 0, 15, 0]));
    assert!(FftField::scale_poly(&of(&[0, 0]), three).coeffs.is_empty());
    assert!(FftField::scale_poly(&of(&[1, 2]), zero).coeffs.is_empty());
}

#[test]
fn products_of_polynomials_have_no_zeros_at_the_end() {
    let of = |ns: &[u64]| DensePolynomial {
        coeffs: ns.iter().map(|&n| bn254::Fr::from_u64(n)).collect(),
    };
    let r = FftField::mul_poly(&of(&[1, 2]), &of(&[3, 4, 5]));
    assert_eq!(bn_limbs(&r), small(&[3, 10, 13, 10]));
    let r = FftField::mul_poly(&of(&[1, 2, 0]), &of(&[3, 4, 5, 0]));
    assert_eq!(bn_limbs(&r), small(&[3, 10, 13, 10]));
    assert!(FftField::mul_poly(&of(&[]), &of(&[3, 4])).coeffs.is_empty());
    assert!(FftField::mul_poly(&of(&[1]), &of(&[0, 0])).coeffs.is_empty());

    let of = |ns: &[u64]| DensePolynomial {
        coeffs: ns.iter().map(|&n| bls12_381::Fr::from_u64(n)).collect(),
    };
    let r = FftField::mul_poly(&of(&[1, 2, 0]), &of(&[3, 4, 5]));
    assert_eq!(bls_limbs(&r), small(&[3, 10, 13, 10]));
    assert!(FftField::mul_poly(&of(&[]), &of(&[3, 4])).coeffs.is_empty());
}
