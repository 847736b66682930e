//! The scalar field of the curve BLS12-381.

use ark_ff::{BigInteger256, Field, PrimeField};
use vstd::prelude::*;

use crate::dense::DensePolynomial;
use crate::field::{FftField, FieldElement};
use crate::limbs::{limbs_below, limbs_value};
use crate::modular::{cong, lemma_cong_residue, lemma_residue_small};
use crate::poly::{all_zero, product, reduced, trimmed};

verus! {

/// The prime order of the groups of points that BLS12-381 pairs.
pub open spec fn fr_modulus() -> int {
    52435875175126190479447740508185965837690552500527637822603658699938581184513int
}

/// An element of the scalar field of BLS12-381, held as its residue.
#[derive(Clone, Copy, Debug)]
pub struct Fr {
    limbs: [u64; 4],
}

impl Fr {
    #[verifier::type_invariant]
    spec fn is_residue(self) -> bool {
        limbs_value(self.limbs) < fr_modulus()
    }

    /// The element with the given residue, if that is below the modulus.
    pub fn from_repr(limbs: [u64; 4]) -> (r: Option<Fr>)
        ensures
            r is Some <==> limbs_value(limbs) < fr_modulus(),
            r matches Some(f) ==> f.val() == limbs_value(limbs),
    {
        let order: [u64; 4] = [
            18446744069414584321,
            6034159408538082302,
            3691218898639771653,
            8353516859464449352,
        ];
        if limbs_below(limbs, order) {
            proof {
                lemma_residue_small(fr_modulus(), limbs_value(limbs));
            }
            Some(Fr { limbs })
        } else {
            None
        }
    }

    /// The residue of `self`.
    pub fn into_repr(self) -> (r: [u64; 4])
        ensures
            limbs_value(r) == self.val(),
    {
        proof {
            use_type_invariant(&self);
            lemma_residue_small(fr_modulus(), limbs_value(self.limbs));
        }
        self.limbs
    }

    /// The element that stands for a number of 64 bits.
    pub fn from_u64(n: u64) -> (r: Fr)
        ensures
            r.val() == n,
    {
        let limbs: [u64; 4] = [n, 0, 0, 0];
        proof {
            lemma_residue_small(fr_modulus(), limbs_value(limbs));
        }
        Fr { limbs }
    }
}

/// Calls `Neg::neg` of `ark_bls12_381::Fr`: the result is the additive inverse modulo the order.
#[verifier::external_body]
fn ark_neg(a: [u64; 4]) -> (r: [u64; 4])
    requires
        limbs_value(a) < fr_modulus(),
    ensures
        limbs_value(r) == (-limbs_value(a)) % fr_modulus(),
{
    (-ark_bls12_381::Fr::from(BigInteger256::new(a))).into_repr().0
}

/// Calls `Sub::sub` of `ark_bls12_381::Fr`: the result is the difference modulo the order.
#[verifier::external_body]
fn ark_sub(a: [u64; 4], b: [u64; 4]) -> (r: [u64; 4])
    requires
        limbs_value(a) < fr_modulus(),
        limbs_value(b) < fr_modulus(),
    ensures
        limbs_value(r) == (limbs_value(a) - limbs_value(b)) % fr_modulus(),
{
    let x = ark_bls12_381::Fr::from(BigInteger256::new(a));
    let y = ark_bls12_381::Fr::from(BigInteger256::new(b));
    (x - y).into_repr().0
}

/// Calls `Field::inverse` of `ark_bls12_381::Fr`: the result is the multiplicative inverse modulo the
/// order, and there is none for zero alone.
#[verifier::external_body]
fn ark_inverse(a: [u64; 4]) -> (r: Option<[u64; 4]>)
    requires
        limbs_value(a) < fr_modulus(),
    ensures
        r is None <==> limbs_value(a) == 0,
        r matches Some(w) ==> limbs_value(w) < fr_modulus() && cong(
            fr_modulus(),
            limbs_value(a) * limbs_value(w),
            1,
        ),
{
    let x = ark_bls12_381::Fr::from(BigInteger256::new(a));
    x.inverse().map(|w| w.into_repr().0)
}

/// Calls `Mul<F>` of `ark_poly::univariate::DensePolynomial`: each coefficient is multiplied by
/// `s`, but a product with a zero polynomial or with zero has no coefficients.
#[verifier::external_body]
fn ark_scale_poly(a: &DensePolynomial<Fr>, s: Fr) -> (r: DensePolynomial<Fr>)
    ensures
        r@ == (if all_zero(a@) || s.val() == 0 {
            Seq::empty()
        } else {
            reduced(fr_modulus(), Seq::new(a@.len(), |i: int| a@[i] * s.val()))
        }),
{
    let coeffs = a.coeffs.iter().map(|c| ark_bls12_381::Fr::from(BigInteger256::new(c.limbs)));
    let p = ark_poly::univariate::DensePolynomial { coeffs: coeffs.collect() };
    let r = &p * ark_bls12_381::Fr::from(BigInteger256::new(s.limbs));
    let coeffs = r.coeffs.into_iter().map(|c| Fr { limbs: c.into_repr().0 });
    DensePolynomial { coeffs: coeffs.collect() }
}

/// Calls `Mul<&DensePolynomial>` of `ark_poly::univariate::DensePolynomial`: the result is the
/// product without zeros at its end. The call takes a Fourier transform over a domain of at least as
/// many elements as both factors have coefficients, and the field has none beyond `2^32` elements.
#[verifier::external_body]
fn ark_mul_poly(a: &DensePolynomial<Fr>, b: &DensePolynomial<Fr>) -> (r: DensePolynomial<Fr>)
    requires
        a@.len() + b@.len() <= 0x1_0000_0000,
    ensures
        r@ == trimmed(reduced(fr_modulus(), product(a@, b@))),
{
    let x = a.coeffs.iter().map(|c| ark_bls12_381::Fr::from(BigInteger256::new(c.limbs)));
    let x = ark_poly::univariate::DensePolynomial { coeffs: x.collect() };
    let y = b.coeffs.iter().map(|c| ark_bls12_381::Fr::from(BigInteger256::new(c.limbs)));
    let y = ark_poly::univariate::DensePolynomial { coeffs: y.collect() };
    let r = &x * &y;
    let coeffs = r.coeffs.into_iter().map(|c| Fr { limbs: c.into_repr().0 });
    DensePolynomial { coeffs: coeffs.collect() }
}

impl FieldElement for Fr {
    open spec fn modulus() -> int {
        fr_modulus()
    }

    closed spec fn val(self) -> int {
        limbs_value(self.limbs) % fr_modulus()
    }

    proof fn lemma_modulus() {
    }

    proof fn lemma_val(self) {
        lemma_cong_residue(fr_modulus(), limbs_value(self.limbs));
    }
}

impl FftField for Fr {
    open spec fn max_domain_size() -> int {
        0x1_0000_0000
    }

    fn one() -> Self {
        Fr::from_u64(1)
    }

    fn is_zero(&self) -> bool {
        proof {
            use_type_invariant(self);
            lemma_residue_small(fr_modulus(), limbs_value(self.limbs));
        }
        self.limbs[0] == 0 && self.limbs[1] == 0 && self.limbs[2] == 0 && self.limbs[3] == 0
    }

    fn neg(self) -> Self {
        proof {
            use_type_invariant(&self);
            lemma_residue_small(fr_modulus(), limbs_value(self.limbs));
            lemma_cong_residue(fr_modulus(), -limbs_value(self.limbs));
        }
        let limbs: [u64; 4] = ark_neg(self.limbs);
        Fr { limbs }
    }

    fn sub(self, other: Self) -> Self {
        proof {
            use_type_invariant(&self);
            use_type_invariant(&other);
            lemma_residue_small(fr_modulus(), limbs_value(self.limbs));
            lemma_residue_small(fr_modulus(), limbs_value(other.limbs));
            lemma_cong_residue(fr_modulus(), limbs_value(self.limbs) - limbs_value(other.limbs));
        }
        let limbs: [u64; 4] = ark_sub(self.limbs, other.limbs);
        Fr { limbs }
    }

    fn inverse(&self) -> Option<Self> {
        proof {
            use_type_invariant(self);
            lemma_residue_small(fr_modulus(), limbs_value(self.limbs));
        }
        match ark_inverse(self.limbs) {
            Some(limbs) => {
                proof {
                    lemma_residue_small(fr_modulus(), limbs_value(limbs));
                }
                Some(Fr { limbs })
            },
            None => None,
        }
    }

    fn scale_poly(a: &DensePolynomial<Self>, s: Self) -> DensePolynomial<Self> {
        ark_scale_poly(a, s)
    }

    fn mul_poly(a: &DensePolynomial<Self>, b: &DensePolynomial<Self>) -> DensePolynomial<Self> {
        ark_mul_poly(a, b)
    }
}

} // verus!
