//! Polynomials with all their coefficients stored.

use vstd::prelude::*;

use crate::field::{values, FftField, FieldElement};
use crate::poly::{lemma_trimmed_unique, trimmed};

verus! {

/// A polynomial in coefficient form: the coefficient of `x^i` is `coeffs[i]`.
#[derive(Clone, Debug)]
pub struct DensePolynomial<F> {
    pub coeffs: Vec<F>,
}

impl<F: FieldElement> View for DensePolynomial<F> {
    type V = Seq<int>;

    open spec fn view(&self) -> Seq<int> {
        values(self.coeffs@)
    }
}

impl<F: FftField> DensePolynomial<F> {
    /// The polynomial with the given coefficients, without zeros at its end.
    pub fn from_coefficients_slice(coeffs: &[F]) -> (r: Self)
        ensures
            r@ == trimmed(values(coeffs@)),
            r.coeffs@ == coeffs@.take(r@.len() as int),
            r.coeffs@.len() <= coeffs@.len(),
            r.coeffs@.len() > 0 ==> r.coeffs@.last().val() != 0,
            forall|i: int|
                r.coeffs@.len() <= i < coeffs@.len() ==> (#[trigger] coeffs@[i]).val() == 0,
    {
        let mut n: usize = coeffs.len();
        while n > 0 && coeffs[n - 1].is_zero()
            invariant
                n <= coeffs@.len(),
                forall|i: int| n <= i < coeffs@.len() ==> (#[trigger] coeffs@[i]).val() == 0,
            decreases n,
        {
            n = n - 1;
        }
        let mut kept: Vec<F> = Vec::new();
        for i in 0..n
            invariant
                n <= coeffs@.len(),
                kept@ == coeffs@.take(i as int),
        {
            kept.push(coeffs[i]);
            assert(kept@ =~= coeffs@.take(i + 1));
        }
        let r = DensePolynomial { coeffs: kept };
        proof {
            let c = values(coeffs@);
            lemma_trimmed_unique(c, n as nat);
            assert(c.take(n as int) =~= r@);
        }
        r
    }
}

} // verus!
