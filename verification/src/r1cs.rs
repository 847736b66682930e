//! Rank-one constraint systems: what a circuit needs of one, and what one holds.

use vstd::prelude::*;

use crate::field::FieldElement;

verus! {

/// A variable of a constraint system.
#[derive(Clone, Copy, Debug, PartialEq, Eq, Structural)]
pub enum Variable {
    /// The constant zero.
    Zero,
    /// The constant one.
    One,
    /// A public input.
    Instance(usize),
    /// A private witness.
    Witness(usize),
}

/// Why constraint generation stopped.
#[derive(Clone, Copy, Debug, PartialEq, Eq, Structural)]
pub enum GenerationError {
    /// A variable or a constraint was added where there is no constraint system.
    MissingCS,
    /// The value of a variable was not known.
    AssignmentMissing,
}

/// A linear form: the total coefficient of each variable that occurs in it.
pub type Form = Map<Variable, int>;

/// The form without terms.
pub open spec fn no_terms() -> Form {
    Map::empty()
}

/// The total coefficient of `v` in `form`.
pub open spec fn total(form: Form, v: Variable) -> int {
    if form.dom().contains(v) {
        form[v]
    } else {
        0
    }
}

/// `form` plus `c` times the variable `v`, with coefficients reduced modulo `p`.
pub open spec fn with_term(p: int, form: Form, c: int, v: Variable) -> Form {
    form.insert(v, (total(form, v) + c) % p)
}

/// The constraint that the product of the forms `a` and `b` is the form `c`.
pub struct Constraint {
    pub a: Form,
    pub b: Form,
    pub c: Form,
}

/// What a constraint system holds.
#[verifier::ext_equal]
pub struct SystemState {
    /// There is a system. Where there is none, nothing can be added.
    pub present: bool,
    /// Values of variables are kept: the system is used to prove, not to set up.
    pub assigns: bool,
    /// Constraints are kept, not only counted.
    pub records: bool,
    /// No combination is stored under a number that has not been given out.
    pub indexed: bool,
    pub instance_count: nat,
    pub witness_count: nat,
    pub constraint_count: nat,
    pub combination_count: nat,
    pub instance_values: Seq<int>,
    pub witness_values: Seq<int>,
    pub constraints: Seq<Constraint>,
}

impl SystemState {
    /// The counters leave room for so many more variables and constraints. Combinations take room
    /// only where constraints are kept.
    pub open spec fn has_room(self, instances: int, witnesses: int, constraints: int) -> bool {
        &&& self.instance_count + instances <= usize::MAX
        &&& self.witness_count + witnesses <= usize::MAX
        &&& self.constraint_count + constraints <= usize::MAX
        &&& self.records ==> {
            &&& self.indexed
            &&& self.combination_count + 3 * constraints <= usize::MAX
        }
    }

    /// After public inputs with the given values were added.
    pub open spec fn with_instances(self, values: Seq<int>) -> SystemState {
        SystemState {
            instance_count: self.instance_count + values.len(),
            instance_values: if self.assigns {
                self.instance_values + values
            } else {
                self.instance_values
            },
            ..self
        }
    }

    /// After witnesses with the given values were added.
    pub open spec fn with_witnesses(self, values: Seq<int>) -> SystemState {
        SystemState {
            witness_count: self.witness_count + values.len(),
            witness_values: if self.assigns {
                self.witness_values + values
            } else {
                self.witness_values
            },
            ..self
        }
    }

    /// After the given constraints were added.
    pub open spec fn with_constraints(self, constraints: Seq<Constraint>) -> SystemState {
        SystemState {
            constraint_count: self.constraint_count + constraints.len(),
            combination_count: if self.records {
                self.combination_count + 3 * constraints.len()
            } else {
                self.combination_count
            },
            constraints: if self.records {
                self.constraints + constraints
            } else {
                self.constraints
            },
            ..self
        }
    }
}

/// A constraint system over the field of `F`.
pub trait ConstraintSystem<F: FieldElement>: Sized {
    /// A linear combination of variables.
    type Combination;

    /// What the system holds.
    spec fn state(&self) -> SystemState;

    /// The linear form that a combination stands for.
    spec fn form(lc: Self::Combination) -> Form;

    /// The combination without terms.
    fn zero_combination() -> (r: Self::Combination)
        ensures
            Self::form(r) == no_terms(),
    ;

    /// Adds a term to a combination.
    fn add_term(lc: Self::Combination, coeff: F, var: Variable) -> (r: Self::Combination)
        ensures
            Self::form(r) == with_term(F::modulus(), Self::form(lc), coeff.val(), var),
    ;

    /// Adds a public input.
    fn new_input_variable(&mut self, value: F) -> (r: Result<Variable, GenerationError>)
        requires
            old(self).state().present ==> old(self).state().has_room(1, 0, 0),
        ensures
            old(self).state().present ==> {
                &&& r == Ok::<Variable, GenerationError>(
                    Variable::Instance(old(self).state().instance_count as usize),
                )
                &&& final(self).state() == old(self).state().with_instances(seq![value.val()])
            },
            !old(self).state().present ==> {
                &&& r == Err::<Variable, GenerationError>(GenerationError::MissingCS)
                &&& final(self).state() == old(self).state()
            },
    ;

    /// Adds a witness.
    fn new_witness_variable(&mut self, value: F) -> (r: Result<Variable, GenerationError>)
        requires
            old(self).state().present ==> old(self).state().has_room(0, 1, 0),
        ensures
            old(self).state().present ==> {
                &&& r == Ok::<Variable, GenerationError>(
                    Variable::Witness(old(self).state().witness_count as usize),
                )
                &&& final(self).state() == old(self).state().with_witnesses(seq![value.val()])
            },
            !old(self).state().present ==> {
                &&& r == Err::<Variable, GenerationError>(GenerationError::MissingCS)
                &&& final(self).state() == old(self).state()
            },
    ;

    /// Adds the constraint that the product of `a` and `b` is `c`.
    fn enforce_constraint(
        &mut self,
        a: Self::Combination,
        b: Self::Combination,
        c: Self::Combination,
    ) -> (r: Result<(), GenerationError>)
        requires
            old(self).state().present ==> old(self).state().has_room(0, 0, 1),
        ensures
            old(self).state().present ==> {
                &&& r == Ok::<(), GenerationError>(())
                &&& final(self).state() == old(self).state().with_constraints(
                    seq![Constraint { a: Self::form(a), b: Self::form(b), c: Self::form(c) }],
                )
            },
            !old(self).state().present ==> {
                &&& r == Err::<(), GenerationError>(GenerationError::MissingCS)
                &&& final(self).state() == old(self).state()
            },
    ;
}

} // verus!
