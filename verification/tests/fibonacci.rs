use functional_commitment::ac_bridge::{AcCircuit, Matrix, R1CSfIndex};
use functional_commitment::bn254::Fr;
use functional_commitment::bn254_system::ConstraintSystemRef;
use functional_commitment::fibonacci::{
    build_fibonacci_output_circuit, BuilderStep, GateType, VariableType,
};

fn steps(f0: u64, f1: u64, num_steps: usize) -> Vec<BuilderStep<Fr>> {
    build_fibonacci_output_circuit(Fr::from_u64(f0), Fr::from_u64(f1), num_steps)
}

// Runs the steps on numbers small enough not to wrap, and returns the value of each variable.
fn run(list: &[BuilderStep<Fr>]) -> Vec<u64> {
    let mut values: Vec<u64> = Vec::new();
    for step in list {
        let value = match step {
            BuilderStep::Input { value, .. } => value.into_repr()[0],
            BuilderStep::Gate { left, right, gate: GateType::Add, .. } => {
                values[*left] + values[*right]
            }
            BuilderStep::Gate { left, right, gate: GateType::Mul, .. } => {
                values[*left] * values[*right]
            }
        };
        values.push(value);
    }
    values
}

fn fibonacci_pair(f0: u64, f1: u64, num_steps: usize) -> (u64, u64) {
    let (mut prev, mut curr) = (f0, f1);
    for _ in 0..num_steps {
        let next = prev + curr;
        prev = curr;
        curr = next;
    }
    (prev, curr)
}

fn gate(step: &BuilderStep<Fr>) -> (usize, usize, GateType, VariableType) {
    match step {
        BuilderStep::Gate { left, right, gate, kind } => (*left, *right, *gate, *kind),
        BuilderStep::Input { .. } => panic!("not a gate"),
    }
}

fn input(step: &BuilderStep<Fr>) -> (&'static str, [u64; 4]) {
    match step {
        BuilderStep::Input { label, value } => (*label, value.into_repr()),
        BuilderStep::Gate { .. } => panic!("not an input"),
    }
}

#[test]
fn circuit_with_two_sums() {
    let list = steps(3, 5, 2);
    assert_eq!(list.len(), 7);
    assert_eq!(input(&list[0]), ("one", [1, 0, 0, 0]));
    assert_eq!(input(&list[1]), ("f0", [3, 0, 0, 0]));
    assert_eq!(input(&list[2]), ("f1", [5, 0, 0, 0]));
    assert_eq!(gate(&list[3]), (1, 2, GateType::Add, VariableType::Witness));
    assert_eq!(gate(&list[4]), (2, 3, GateType::Add, VariableType::Witness));
    assert_eq!(gate(&list[5]), (3, 0, GateType::Mul, VariableType::Output));
    assert_eq!(gate(&list[6]), (4, 0, GateType::Mul, VariableType::Output));
}

#[test]
fn circuit_without_sums_puts_out_its_inputs() {
    let list = steps(3, 5, 0);
    assert_eq!(list.len(), 5);
    assert_eq!(gate(&list[3]), (1, 0, GateType::Mul, VariableType::Output));
    assert_eq!(gate(&list[4]), (2, 0, GateType::Mul, VariableType::Output));
    assert_eq!(run(&list), vec![1, 3, 5, 3, 5]);
}

#[test]
fn outputs_are_the_next_members_of_the_sequence() {
    for num_steps in [1, 2, 10, 24] {
        let values = run(&steps(1, 1, num_steps));
        let outputs = (values[num_steps + 3], values[num_steps + 4]);
        assert_eq!(outputs, fibonacci_pair(1, 1, num_steps));
    }
    assert_eq!(fibonacci_pair(1, 1, 10), (89, 144));
}

// The circuit that the steps describe: the variable of the step k has the column k + 1, a sum is a
// product with the constant, and the values of the columns are those of a run.
fn compile(list: &[BuilderStep<Fr>]) -> AcCircuit<Fr> {
    let one = Fr::from_u64(1);
    let (mut a, mut b, mut c): (Matrix<Fr>, Matrix<Fr>, Matrix<Fr>) = (vec![], vec![], vec![]);
    let mut inputs = 0;
    let mut outputs = 0;
    for (k, step) in list.iter().enumerate() {
        match step {
            BuilderStep::Input { .. } => inputs += 1,
            BuilderStep::Gate { left, right, gate, kind } => {
                let (l, r) = (left + 1, right + 1);
                match gate {
                    GateType::Add => {
                        a.push(vec![(one, l), (one, r)]);
                        b.push(vec![(one, 0)]);
                    }
                    GateType::Mul => {
                        a.push(vec![(one, l)]);
                        b.push(vec![(one, r)]);
                    }
                }
                c.push(vec![(one, k + 1)]);
                if *kind == VariableType::Output {
                    outputs += 1;
                }
            }
        }
    }
    let mut assignment = vec![one];
    assignment.extend(run(list).into_iter().map(Fr::from_u64));
    let index_info = R1CSfIndex {
        number_of_constraints: a.len(),
        number_of_input_rows: inputs + 1,
        number_of_outputs: outputs,
        number_of_non_zero_entries: a.len(),
    };
    AcCircuit::new(a, b, c, assignment, index_info)
}

// Asserts that the circuit is satisfied, and that its inputs and its last witnesses are the given ones.
fn assert_fibonacci(f0: u64, f1: u64, num_steps: usize, outputs: (u64, u64)) {
    assert_eq!(fibonacci_pair(f0, f1, num_steps), outputs);
    let mut cs = ConstraintSystemRef::new_ref();
    let circuit = compile(&steps(f0, f1, num_steps));
    assert_eq!(circuit.generate_constraints(&mut cs), Ok(()));
    let cs = match cs {
        ConstraintSystemRef::CS(system) => system.cs,
        ConstraintSystemRef::Missing => panic!("no constraint system"),
    };
    let of = |n: u64| ark_bn254::Fr::from(n);
    assert!(cs.is_satisfied().unwrap());
    assert_eq!(cs.instance_assignment, vec![of(1), of(1), of(f0), of(f1)]);
    let witnesses = &cs.witness_assignment;
    assert_eq!(witnesses.len(), num_steps + 2);
    assert_eq!(&witnesses[num_steps..], &[of(outputs.0), of(outputs.1)]);
}

#[test]
fn test_fibonacci_output_medium() {
    assert_fibonacci(1, 1, 10, (89, 144));
}

#[test]
fn test_fibonacci_output_longer() {
    assert_fibonacci(2, 3, 24, (196418, 317811));
}
