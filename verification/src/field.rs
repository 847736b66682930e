//! The fields that polynomials and constraint systems are built over.

use vstd::prelude::*;

use crate::dense::DensePolynomial;
use crate::modular::cong;
use crate::poly::{all_zero, product, reduced, trimmed};

verus! {

/// A value that stands for a residue modulo a fixed number, the order of the field.
pub trait FieldElement: Copy {
    /// The order of the field. That it is prime is not stated: what the library needs of it, inverses,
    /// comes from `FftField::inverse`.
    spec fn modulus() -> int;

    /// The residue that `self` stands for.
    spec fn val(self) -> int;

    proof fn lemma_modulus()
        ensures
            Self::modulus() > 1,
    ;

    proof fn lemma_val(self)
        ensures
            0 <= self.val() < Self::modulus(),
    ;
}

/// A field with roots of unity of high two-power order, so that polynomials over it are multiplied
/// by fast Fourier transforms.
pub trait FftField: FieldElement {
    /// The size of the largest domain over which the field has a Fourier transform.
    spec fn max_domain_size() -> int;

    /// The number one.
    fn one() -> (r: Self)
        ensures
            r.val() == 1,
    ;

    /// Whether `self` is the number zero.
    fn is_zero(&self) -> (r: bool)
        ensures
            r == (self.val() == 0),
    ;

    /// The additive inverse.
    fn neg(self) -> (r: Self)
        ensures
            r.val() == (-self.val()) % Self::modulus(),
    ;

    /// The difference of `self` and `other`.
    fn sub(self, other: Self) -> (r: Self)
        ensures
            r.val() == (self.val() - other.val()) % Self::modulus(),
    ;

    /// The multiplicative inverse, which zero alone lacks.
    fn inverse(&self) -> (r: Option<Self>)
        ensures
            match r {
                Some(w) => cong(Self::modulus(), self.val() * w.val(), 1),
                None => self.val() == 0,
            },
            r is None <==> self.val() == 0,
    ;

    /// The polynomial `a` with each coefficient multiplied by `s`. A product that is zero has no
    /// coefficients.
    fn scale_poly(a: &DensePolynomial<Self>, s: Self) -> (r: DensePolynomial<Self>)
        ensures
            r@ == (if all_zero(a@) || s.val() == 0 {
                Seq::empty()
            } else {
                reduced(Self::modulus(), Seq::new(a@.len(), |i: int| a@[i] * s.val()))
            }),
    ;

    /// The product of two polynomials, without zeros at its end.
    fn mul_poly(a: &DensePolynomial<Self>, b: &DensePolynomial<Self>) -> (r: DensePolynomial<Self>)
        requires
            a@.len() + b@.len() <= Self::max_domain_size(),
        ensures
            r@ == trimmed(reduced(Self::modulus(), product(a@, b@))),
    ;
}

/// The residues that a sequence of field elements stands for.
pub open spec fn values<F: FieldElement>(s: Seq<F>) -> Seq<int> {
    Seq::new(s.len(), |i: int| s[i].val())
}

} // verus!
