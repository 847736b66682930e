use ark_ff::{BigInteger256, Field, PrimeField};
use ark_relations::r1cs::{ConstraintSystem as ArkSystem, SynthesisMode};
use functional_commitment::ac_bridge::{AcCircuit, Matrix, R1CSfIndex};
use functional_commitment::bn254::Fr;
use functional_commitment::bn254_system::{Bn254System, ConstraintSystemRef};
use functional_commitment::r1cs::{ConstraintSystem, GenerationError, Variable};

type Rows<'a> = &'a [&'a [(u64, usize)]];

fn matrix(rows: Rows) -> Matrix<Fr> {
    rows.iter()
        .map(|row| row.iter().map(|&(c, col)| (Fr::from_u64(c), col)).collect())
        .collect()
}

fn circuit(a: Rows, b: Rows, c: Rows, z: &[u64], t: usize, s: usize) -> AcCircuit<Fr> {
    let index_info = R1CSfIndex {
        number_of_constraints: a.len(),
        number_of_input_rows: t,
        number_of_outputs: s,
        number_of_non_zero_entries: a.len(),
    };
    let assignment: Vec<Fr> = z.iter().map(|&n| Fr::from_u64(n)).collect();
    AcCircuit::new(matrix(a), matrix(b), matrix(c), assignment, index_info)
}

// The columns of `x * y = w`, `w + 1 = out`: one, x, y, w, out.
fn product_plus_one(z: &[u64]) -> AcCircuit<Fr> {
    circuit(
        &[&[(1, 1)], &[(1, 0), (1, 3)]],
        &[&[(1, 2)], &[(1, 0)]],
        &[&[(1, 3)], &[(1, 4)]],
        z,
        3,
        1,
    )
}

fn system(cs: ConstraintSystemRef) -> ArkSystem<ark_bn254::Fr> {
    match cs {
        ConstraintSystemRef::CS(system) => system.cs,
        ConstraintSystemRef::Missing => panic!("no constraint system"),
    }
}

fn generate(circuit: AcCircuit<Fr>) -> ArkSystem<ark_bn254::Fr> {
    let mut cs = ConstraintSystemRef::new_ref();
    assert_eq!(circuit.generate_constraints(&mut cs), Ok(()));
    system(cs)
}

fn small(values: &[ark_bn254::Fr]) -> Vec<u64> {
    values.iter().map(|v| v.into_repr().0[0]).collect()
}

fn entries(rows: &[Vec<(ark_bn254::Fr, usize)>]) -> Vec<Vec<(u64, usize)>> {
    rows.iter().map(|row| row.iter().map(|(c, i)| (c.into_repr().0[0], *i)).collect()).collect()
}

#[test]
fn new_keeps_its_arguments() {
    let circuit = product_plus_one(&[1, 3, 4, 12, 13]);
    assert_eq!(circuit.a.len(), 2);
    assert_eq!(circuit.a[1][1].1, 3);
    assert_eq!(circuit.b[0][0].1, 2);
    assert_eq!(circuit.c[1][0].1, 4);
    assert_eq!(circuit.assignment[4].into_repr(), [13, 0, 0, 0]);
    assert_eq!(circuit.index_info.number_of_input_rows, 3);
    assert_eq!(circuit.index_info.number_of_outputs, 1);
}

#[test]
fn columns_become_variables_in_order() {
    let cs = generate(product_plus_one(&[1, 3, 4, 12, 13]));
    assert_eq!(cs.num_instance_variables, 3);
    assert_eq!(cs.num_witness_variables, 2);
    assert_eq!(cs.num_constraints, 2);
    assert_eq!(small(&cs.instance_assignment), vec![1, 3, 4]);
    assert_eq!(small(&cs.witness_assignment), vec![12, 13]);
}

#[test]
fn rows_become_constraints() {
    let cs = generate(product_plus_one(&[1, 3, 4, 12, 13]));
    let matrices = cs.to_matrices().unwrap();
    assert_eq!(entries(&matrices.a), vec![vec![(1, 1)], vec![(1, 0), (1, 3)]]);
    assert_eq!(entries(&matrices.b), vec![vec![(1, 2)], vec![(1, 0)]]);
    assert_eq!(entries(&matrices.c), vec![vec![(1, 3)], vec![(1, 4)]]);
}

#[test]
fn constraints_hold_exactly_where_the_rows_do() {
    assert!(generate(product_plus_one(&[1, 3, 4, 12, 13])).is_satisfied().unwrap());
    assert!(!generate(product_plus_one(&[1, 3, 4, 11, 12])).is_satisfied().unwrap());
    assert!(!generate(product_plus_one(&[1, 3, 4, 12, 14])).is_satisfied().unwrap());
}

#[test]
fn coefficients_of_a_column_add_up() {
    // (2 x + 3 x) * 1 = out
    let with = |z: &[u64]| circuit(&[&[(2, 1), (3, 1)]], &[&[(1, 0)]], &[&[(1, 2)]], z, 2, 1);
    assert!(generate(with(&[1, 7, 35])).is_satisfied().unwrap());
    assert!(!generate(with(&[1, 7, 21])).is_satisfied().unwrap());
}

#[test]
fn coefficients_of_a_column_add_up_in_long_rows() {
    let row: &[(u64, usize)] =
        &[(1, 0), (1, 1), (1, 2), (1, 3), (1, 4), (1, 5), (1, 6), (4, 3), (4, 3)];
    let with = |out: u64| {
        circuit(&[row], &[&[(1, 0)]], &[&[(1, 7)]], &[1, 1, 1, 10, 1, 1, 1, out], 7, 1)
    };
    assert!(generate(with(96)).is_satisfied().unwrap());
    assert!(!generate(with(56)).is_satisfied().unwrap());
}

#[test]
fn outputs_are_the_last_witnesses() {
    // One input, two internal columns, two outputs.
    let cs = generate(circuit(&[], &[], &[], &[1, 20, 30, 31, 40, 41], 2, 2));
    assert_eq!(small(&cs.instance_assignment), vec![1, 20]);
    assert_eq!(small(&cs.witness_assignment), vec![30, 31, 40, 41]);
}

#[test]
fn circuit_without_internal_columns() {
    let cs = generate(circuit(&[], &[], &[], &[1, 20, 40], 2, 1));
    assert_eq!(small(&cs.instance_assignment), vec![1, 20]);
    assert_eq!(small(&cs.witness_assignment), vec![40]);
}

#[test]
fn column_that_is_input_and_output_is_added_as_both() {
    // Columns 1 and 2 are inputs, column 2 is an output too, and stands for the witness.
    let cs = generate(circuit(&[&[(1, 2)]], &[&[(1, 0)]], &[&[(1, 1)]], &[1, 5, 5], 3, 1));
    assert_eq!(small(&cs.instance_assignment), vec![1, 5, 5]);
    assert_eq!(small(&cs.witness_assignment), vec![5]);
    let matrices = cs.to_matrices().unwrap();
    assert_eq!(entries(&matrices.a), vec![vec![(1, 3)]]);
    assert_eq!(entries(&matrices.c), vec![vec![(1, 1)]]);
}

#[test]
fn without_input_rows_the_first_column_is_a_witness() {
    let cs = generate(circuit(&[&[(1, 0)]], &[&[(1, 1)]], &[&[(1, 1)]], &[1, 6], 0, 0));
    assert_eq!(small(&cs.instance_assignment), vec![1]);
    assert_eq!(small(&cs.witness_assignment), vec![1, 6]);
    assert_eq!(entries(&cs.to_matrices().unwrap().a), vec![vec![(1, 1)]]);
}

#[test]
fn circuit_is_added_behind_what_a_system_holds() {
    let mut cs = ConstraintSystemRef::new_ref();
    let var = cs.new_input_variable(Fr::from_u64(99));
    assert_eq!(var, Ok(Variable::Instance(1)));
    let var = cs.new_witness_variable(Fr::from_u64(98));
    assert_eq!(var, Ok(Variable::Witness(0)));
    let circuit = product_plus_one(&[1, 3, 4, 12, 13]);
    assert_eq!(circuit.generate_constraints(&mut cs), Ok(()));
    let cs = system(cs);
    assert_eq!(small(&cs.instance_assignment), vec![1, 99, 3, 4]);
    assert_eq!(small(&cs.witness_assignment), vec![98, 12, 13]);
    assert!(cs.is_satisfied().unwrap());
}

#[test]
fn system_without_values_counts_variables() {
    let mut inner = ArkSystem::<ark_bn254::Fr>::new();
    inner.set_mode(SynthesisMode::Setup);
    let mut cs = ConstraintSystemRef::CS(Bn254System { cs: inner });
    assert_eq!(product_plus_one(&[1, 3, 4, 12, 13]).generate_constraints(&mut cs), Ok(()));
    let cs = system(cs);
    assert_eq!((cs.num_instance_variables, cs.num_witness_variables), (3, 2));
    assert_eq!(small(&cs.instance_assignment), vec![1]);
    assert!(cs.witness_assignment.is_empty());
    assert_eq!(cs.to_matrices().unwrap().a.len(), 2);
}

#[test]
fn system_without_matrices_counts_constraints() {
    let mut inner = ArkSystem::<ark_bn254::Fr>::new();
    inner.set_mode(SynthesisMode::Prove { construct_matrices: false });
    let mut cs = ConstraintSystemRef::CS(Bn254System { cs: inner });
    assert_eq!(product_plus_one(&[1, 3, 4, 12, 13]).generate_constraints(&mut cs), Ok(()));
    let cs = system(cs);
    assert_eq!(cs.num_constraints, 2);
    assert_eq!(small(&cs.witness_assignment), vec![12, 13]);
    assert!(cs.to_matrices().is_none());
}

#[test]
fn missing_system_is_an_error() {
    let missing = Err(GenerationError::MissingCS);
    let mut cs = ConstraintSystemRef::Missing;
    assert_eq!(product_plus_one(&[1, 3, 4, 12, 13]).generate_constraints(&mut cs), missing);
    let constant = circuit(&[&[(1, 0)]], &[&[(1, 0)]], &[&[(1, 0)]], &[1], 1, 0);
    assert_eq!(constant.generate_constraints(&mut cs), missing);
    let witness = circuit(&[], &[], &[], &[1, 2], 1, 0);
    assert_eq!(witness.generate_constraints(&mut cs), missing);
    assert!(matches!(cs, ConstraintSystemRef::Missing));
}

#[test]
fn missing_system_stops_before_bad_rows() {
    let mut cs = ConstraintSystemRef::Missing;
    let bad = circuit(&[&[(1, 77)]], &[], &[], &[1, 3], 9, 5);
    assert_eq!(bad.generate_constraints(&mut cs), Err(GenerationError::MissingCS));
}

#[test]
fn missing_system_is_no_matter_to_an_empty_circuit() {
    let mut cs = ConstraintSystemRef::Missing;
    assert_eq!(circuit(&[], &[], &[], &[1], 1, 0).generate_constraints(&mut cs), Ok(()));
}

#[test]
fn combinations_are_enforced() {
    let mut cs = ConstraintSystemRef::new_ref();
    let x = cs.new_witness_variable(Fr::from_u64(6)).unwrap();
    let zero = ConstraintSystemRef::zero_combination;
    let term = |c: u64, v: Variable| {
        ConstraintSystemRef::add_term(zero(), Fr::from_u64(c), v)
    };
    assert_eq!(
        cs.enforce_constraint(term(2, x), term(1, Variable::One), term(12, Variable::One)),
        Ok(()),
    );
    assert_eq!(
        cs.enforce_constraint(term(5, Variable::Zero), term(1, x), zero()),
        Ok(()),
    );
    assert!(system(cs).is_satisfied().unwrap());

    let mut missing = ConstraintSystemRef::Missing;
    assert_eq!(
        missing.enforce_constraint(zero(), zero(), zero()),
        Err(GenerationError::MissingCS),
    );
    assert_eq!(missing.new_input_variable(Fr::from_u64(1)), Err(GenerationError::MissingCS));
    assert_eq!(missing.new_witness_variable(Fr::from_u64(1)), Err(GenerationError::MissingCS));
}

#[test]
fn column_of_the_constant_is_one_whatever_is_assigned() {
    // x * (column 0) = out
    let with = |z: &[u64]| circuit(&[&[(1, 1)]], &[&[(1, 0)]], &[&[(1, 2)]], z, 2, 1);
    assert!(generate(with(&[2, 7, 7])).is_satisfied().unwrap());
    assert!(!generate(with(&[2, 7, 14])).is_satisfied().unwrap());
}

#[test]
fn constraints_of_before_count_too() {
    for (value, wanted) in [(5, true), (6, false)] {
        let mut cs = ConstraintSystemRef::new_ref();
        let x = cs.new_witness_variable(Fr::from_u64(value)).unwrap();
        let term = |c: u64, v: Variable| {
            ConstraintSystemRef::add_term(
                ConstraintSystemRef::zero_combination(),
                Fr::from_u64(c),
                v,
            )
        };
        let result =
            cs.enforce_constraint(term(1, x), term(1, Variable::One), term(5, Variable::One));
        assert_eq!(result, Ok(()));
        let circuit = product_plus_one(&[1, 3, 4, 12, 13]);
        assert_eq!(circuit.generate_constraints(&mut cs), Ok(()));
        assert_eq!(system(cs).is_satisfied().unwrap(), wanted);
    }
}

type ArkFr = ark_bn254::Fr;

fn from_ark(x: &ArkFr) -> Fr {
    Fr::from_repr(x.into_repr().0).unwrap()
}

// Adds the circuit with the given columns, and asserts that it is satisfied, that its public inputs and
// last witnesses are the given ones, and that it is not satisfied with another output.
fn assert_circuit(a: Rows, b: Rows, c: Rows, z: &[ArkFr], inputs: &[ArkFr], outputs: &[ArkFr]) {
    let with = |z: &[ArkFr]| {
        let mut of = circuit(a, b, c, &[], inputs.len() + 1, outputs.len());
        of.assignment = z.iter().map(from_ark).collect();
        generate(of)
    };
    let cs = with(z);
    assert!(cs.is_satisfied().unwrap());
    assert_eq!(&cs.instance_assignment[1..], inputs);
    let witnesses = &cs.witness_assignment;
    assert_eq!(&witnesses[witnesses.len() - outputs.len()..], outputs);
    for k in 0..outputs.len() {
        let mut wrong = z.to_vec();
        wrong[z.len() - 1 - k] += ArkFr::from(1u64);
        assert!(!with(&wrong).is_satisfied().unwrap());
    }
}

fn numbers(ns: &[u64]) -> Vec<ArkFr> {
    ns.iter().map(|&n| ArkFr::from(n)).collect()
}

#[test]
fn test_simple_circuit() {
    // x^3 + 2x + 5, with the columns one, two, five, x, x^2, x^3, 2x, x^3 + 2x, output.
    assert_circuit(
        &[&[(1, 3)], &[(1, 4)], &[(1, 1)], &[(1, 5), (1, 6)], &[(1, 7), (1, 2)]],
        &[&[(1, 3)], &[(1, 3)], &[(1, 3)], &[(1, 0)], &[(1, 0)]],
        &[&[(1, 4)], &[(1, 5)], &[(1, 6)], &[(1, 7)], &[(1, 8)]],
        &numbers(&[1, 2, 5, 7, 49, 343, 14, 357, 362]),
        &numbers(&[2, 5, 7]),
        &numbers(&[362]),
    );
}

#[test]
fn test_mux1() {
    // (b - a) * c + a, with the columns one, a, b, c, -1, b c, a c, -a c, b c - a c, output.
    let (a_val, b_val) = (ArkFr::from(123u64), ArkFr::from(456u64));
    let minus_one = -ArkFr::from(1u64);
    for (c_val, expected_output) in [(ArkFr::from(1u64), b_val), (ArkFr::from(0u64), a_val)] {
        let (bc, ac) = (b_val * c_val, a_val * c_val);
        let one = ArkFr::from(1u64);
        let z = [one, a_val, b_val, c_val, minus_one, bc, ac, -ac, bc - ac, expected_output];
        assert_circuit(
            &[&[(1, 2)], &[(1, 1)], &[(1, 6)], &[(1, 5), (1, 7)], &[(1, 8), (1, 1)]],
            &[&[(1, 3)], &[(1, 3)], &[(1, 4)], &[(1, 0)], &[(1, 0)]],
            &[&[(1, 5)], &[(1, 6)], &[(1, 7)], &[(1, 8)], &[(1, 9)]],
            &z,
            &[a_val, b_val, c_val, minus_one],
            &[expected_output],
        );
    }
}

#[test]
fn test_composed_circuit() {
    // x^4, with the columns one, the input one, x, x^2, x^4, output.
    assert_circuit(
        &[&[(1, 2)], &[(1, 3)], &[(1, 4)]],
        &[&[(1, 2)], &[(1, 3)], &[(1, 1)]],
        &[&[(1, 3)], &[(1, 4)], &[(1, 5)]],
        &numbers(&[1, 1, 2, 4, 16, 16]),
        &numbers(&[1, 2]),
        &numbers(&[16]),
    );
}

#[test]
fn test_mimc7() {
    // Two rounds with k = 2. The columns are one, x, k, c0, c1, c2, then the gates in order.
    let (x, k) = (ArkFr::from(2u64), ArkFr::from(2u64));
    let registers = [
        [0, 0, 0, 0],
        [
            3366560258570492133,
            10070564347787222493,
            15604622621500992217,
            3327803545572961123,
        ],
        [
            2961805725237629769,
            17895266365305129804,
            3244298544786782209,
            2431874893373010386,
        ],
    ];
    let cts: Vec<ArkFr> =
        registers.iter().map(|r| ArkFr::from(BigInteger256::new(*r))).collect();
    let inputs = vec![x, k, cts[0], cts[1], cts[2]];
    let mut z = vec![ArkFr::from(1u64)];
    z.extend(&inputs);
    let powers = |t: ArkFr| [t.pow([2]), t.pow([4]), t.pow([6]), t.pow([7])];
    z.push(x + k);
    z.extend(powers(x + k));
    let r = (x + k).pow([7]);
    z.push(r + k);
    z.push(r + k + cts[1]);
    z.extend(powers(r + k + cts[1]));
    let output = (r + k + cts[1]).pow([7]) + k;
    z.push(output);
    assert_circuit(
        &[
            &[(1, 1), (1, 2)],
            &[(1, 6)],
            &[(1, 7)],
            &[(1, 7)],
            &[(1, 6)],
            &[(1, 10), (1, 2)],
            &[(1, 11), (1, 4)],
            &[(1, 12)],
            &[(1, 13)],
            &[(1, 13)],
            &[(1, 12)],
            &[(1, 16), (1, 2)],
        ],
        &[
            &[(1, 0)],
            &[(1, 6)],
            &[(1, 7)],
            &[(1, 8)],
            &[(1, 9)],
            &[(1, 0)],
            &[(1, 0)],
            &[(1, 12)],
            &[(1, 13)],
            &[(1, 14)],
            &[(1, 15)],
            &[(1, 0)],
        ],
        &[
            &[(1, 6)],
            &[(1, 7)],
            &[(1, 8)],
            &[(1, 9)],
            &[(1, 10)],
            &[(1, 11)],
            &[(1, 12)],
            &[(1, 13)],
            &[(1, 14)],
            &[(1, 15)],
            &[(1, 16)],
            &[(1, 17)],
        ],
        &z,
        &inputs,
        &[output],
    );
}
