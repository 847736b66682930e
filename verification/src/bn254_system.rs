//! Constraint systems over the scalar field of BN254.

use ark_ff::BigInteger256;
use vstd::prelude::*;

use crate::bn254::{fr_modulus, Fr};
use crate::field::FieldElement;
use crate::r1cs::{
    no_terms, with_term, Constraint, ConstraintSystem, Form, GenerationError, SystemState, Variable,
};

verus! {

/// The error that `ark_relations` reports.
#[verifier::external_type_specification]
#[verifier::external_body]
pub struct ExSynthesisError(ark_relations::r1cs::SynthesisError);

/// A constraint system of `ark_relations`.
#[verifier::external_body]
pub struct Bn254System {
    pub cs: ark_relations::r1cs::ConstraintSystem<ark_bn254::Fr>,
}

/// A linear combination of `ark_relations`.
#[verifier::external_body]
pub struct Bn254Combination {
    lc: ark_relations::r1cs::LinearCombination<ark_bn254::Fr>,
}

/// What a constraint system of `ark_relations` holds.
pub uninterp spec fn system_state(cs: Bn254System) -> SystemState;

/// The total coefficient of each variable that occurs in a linear combination of `ark_relations`.
pub uninterp spec fn combination_form(lc: Bn254Combination) -> Form;

/// Calls `ConstraintSystem::new`: the system keeps values and constraints, its one public input is
/// the number one, and it holds nothing else.
#[verifier::external_body]
fn ark_new_system() -> (r: Bn254System)
    ensures
        system_state(r) == empty_state(),
{
    Bn254System { cs: ark_relations::r1cs::ConstraintSystem::new() }
}

/// Calls `LinearCombination::zero`: no variable occurs in the result.
#[verifier::external_body]
fn ark_zero_combination() -> (r: Bn254Combination)
    ensures
        combination_form(r) == no_terms(),
{
    Bn254Combination { lc: ark_relations::r1cs::LinearCombination::zero() }
}

/// Calls `Add<(F, Variable)>` of `LinearCombination`: the total coefficient of the variable grows by
/// `coeff`, and that of no other variable changes. Whether a second term of a variable is stored
/// apart from the first is left open.
#[verifier::external_body]
fn ark_add_term(lc: Bn254Combination, coeff: Fr, var: Variable) -> (r: Bn254Combination)
    ensures
        combination_form(r) == with_term(fr_modulus(), combination_form(lc), coeff.val(), var),
{
    let c = ark_bn254::Fr::from(BigInteger256::new(coeff.limbs));
    let v = match var {
        Variable::Zero => ark_relations::r1cs::Variable::Zero,
        Variable::One => ark_relations::r1cs::Variable::One,
        Variable::Instance(i) => ark_relations::r1cs::Variable::Instance(i),
        Variable::Witness(i) => ark_relations::r1cs::Variable::Witness(i),
    };
    Bn254Combination { lc: lc.lc + (c, v) }
}

/// Calls `ConstraintSystem::new_input_variable` with a value that is at hand: the next instance
/// variable is given out, and its value kept where the system keeps values. Of the variables of
/// `ark_relations`, those that stand for combinations have no counterpart here.
#[verifier::external_body]
fn ark_new_input_variable(cs: &mut Bn254System, value: Fr) -> (r: Result<
    Option<Variable>,
    ark_relations::r1cs::SynthesisError,
>)
    requires
        system_state(*old(cs)).instance_count < usize::MAX,
    ensures
        r == Ok::<Option<Variable>, ark_relations::r1cs::SynthesisError>(
            Some(Variable::Instance(system_state(*old(cs)).instance_count as usize)),
        ),
        system_state(*final(cs)) == system_state(*old(cs)).with_instances(seq![value.val()]),
{
    let v = ark_bn254::Fr::from(BigInteger256::new(value.limbs));
    cs.cs.new_input_variable(|| Ok(v)).map(
        |var| match var {
            ark_relations::r1cs::Variable::Zero => Some(Variable::Zero),
            ark_relations::r1cs::Variable::One => Some(Variable::One),
            ark_relations::r1cs::Variable::Instance(i) => Some(Variable::Instance(i)),
            ark_relations::r1cs::Variable::Witness(i) => Some(Variable::Witness(i)),
            ark_relations::r1cs::Variable::SymbolicLc(_) => None,
        },
    )
}

/// Calls `ConstraintSystem::new_witness_variable` with a value that is at hand: the next witness
/// variable is given out, and its value kept where the system keeps values. Of the variables of
/// `ark_relations`, those that stand for combinations have no counterpart here.
#[verifier::external_body]
fn ark_new_witness_variable(cs: &mut Bn254System, value: Fr) -> (r: Result<
    Option<Variable>,
    ark_relations::r1cs::SynthesisError,
>)
    requires
        system_state(*old(cs)).witness_count < usize::MAX,
    ensures
        r == Ok::<Option<Variable>, ark_relations::r1cs::SynthesisError>(
            Some(Variable::Witness(system_state(*old(cs)).witness_count as usize)),
        ),
        system_state(*final(cs)) == system_state(*old(cs)).with_witnesses(seq![value.val()]),
{
    let v = ark_bn254::Fr::from(BigInteger256::new(value.limbs));
    cs.cs.new_witness_variable(|| Ok(v)).map(
        |var| match var {
            ark_relations::r1cs::Variable::Zero => Some(Variable::Zero),
            ark_relations::r1cs::Variable::One => Some(Variable::One),
            ark_relations::r1cs::Variable::Instance(i) => Some(Variable::Instance(i)),
            ark_relations::r1cs::Variable::Witness(i) => Some(Variable::Witness(i)),
            ark_relations::r1cs::Variable::SymbolicLc(_) => None,
        },
    )
}

/// Calls `ConstraintSystem::enforce_constraint`: the constraint is counted, and kept where the
/// system keeps constraints.
#[verifier::external_body]
fn ark_enforce_constraint(
    cs: &mut Bn254System,
    a: Bn254Combination,
    b: Bn254Combination,
    c: Bn254Combination,
) -> (r: Result<(), ark_relations::r1cs::SynthesisError>)
    requires
        system_state(*old(cs)).has_room(0, 0, 1),
    ensures
        r is Ok,
        system_state(*final(cs)) == system_state(*old(cs)).with_constraints(
            seq![
                Constraint {
                    a: combination_form(a),
                    b: combination_form(b),
                    c: combination_form(c),
                },
            ],
        ),
{
    cs.cs.enforce_constraint(a.lc, b.lc, c.lc)
}

/// What a new constraint system holds.
pub open spec fn empty_state() -> SystemState {
    SystemState {
        present: true,
        assigns: true,
        records: true,
        indexed: true,
        instance_count: 1,
        witness_count: 0,
        constraint_count: 0,
        combination_count: 0,
        instance_values: seq![1],
        witness_values: Seq::empty(),
        constraints: Seq::empty(),
    }
}

/// A constraint system, or the place of one where constraints are not wanted.
pub enum ConstraintSystemRef {
    /// There is no constraint system.
    Missing,
    /// The constraint system.
    CS(Bn254System),
}

impl ConstraintSystemRef {
    /// A new constraint system.
    pub fn new_ref() -> (r: Self)
        ensures
            r.state() == empty_state(),
    {
        ConstraintSystemRef::CS(ark_new_system())
    }
}

impl ConstraintSystem<Fr> for ConstraintSystemRef {
    type Combination = Bn254Combination;

    open spec fn state(&self) -> SystemState {
        match self {
            ConstraintSystemRef::Missing => SystemState { present: false, ..empty_state() },
            ConstraintSystemRef::CS(cs) => SystemState { present: true, ..system_state(*cs) },
        }
    }

    open spec fn form(lc: Bn254Combination) -> Form {
        combination_form(lc)
    }

    fn zero_combination() -> Bn254Combination {
        ark_zero_combination()
    }

    fn add_term(lc: Bn254Combination, coeff: Fr, var: Variable) -> Bn254Combination {
        ark_add_term(lc, coeff, var)
    }

    fn new_input_variable(&mut self, value: Fr) -> Result<Variable, GenerationError> {
        match self {
            ConstraintSystemRef::Missing => Err(GenerationError::MissingCS),
            ConstraintSystemRef::CS(cs) => match ark_new_input_variable(cs, value) {
                Ok(Some(var)) => Ok(var),
                _ => Err(GenerationError::AssignmentMissing),
            },
        }
    }

    fn new_witness_variable(&mut self, value: Fr) -> Result<Variable, GenerationError> {
        match self {
            ConstraintSystemRef::Missing => Err(GenerationError::MissingCS),
            ConstraintSystemRef::CS(cs) => match ark_new_witness_variable(cs, value) {
                Ok(Some(var)) => Ok(var),
                _ => Err(GenerationError::AssignmentMissing),
            },
        }
    }

    fn enforce_constraint(
        &mut self,
        a: Bn254Combination,
        b: Bn254Combination,
        c: Bn254Combination,
    ) -> Result<(), GenerationError> {
        match self {
            ConstraintSystemRef::Missing => Err(GenerationError::MissingCS),
            ConstraintSystemRef::CS(cs) => match ark_enforce_constraint(cs, a, b, c) {
                Ok(()) => Ok(()),
                Err(_) => Err(GenerationError::AssignmentMissing),
            },
        }
    }
}

} // verus!
