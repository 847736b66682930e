//! A circuit that computes two consecutive members of a Fibonacci sequence.
//!
//! The circuit is a list of steps for a constraint builder. Each step makes one variable, and later
//! steps name it by the number of the step.

use vstd::prelude::*;

use crate::field::{FftField, FieldElement};
use crate::modular::{lemma_cong_residue, lemma_residue_small};

verus! {

/// What a gate computes of its two operands.
#[derive(Clone, Copy, Debug, PartialEq, Eq, Structural)]
pub enum GateType {
    Add,
    Mul,
}

/// What the variable that a gate makes is for.
#[derive(Clone, Copy, Debug, PartialEq, Eq, Structural)]
pub enum VariableType {
    Witness,
    Output,
}

/// A step of building a circuit.
#[derive(Clone, Copy, Debug)]
pub enum BuilderStep<F> {
    /// A new input variable with a label and a value.
    Input { label: &'static str, value: F },
    /// A gate over the variables that two earlier steps made.
    Gate { left: usize, right: usize, gate: GateType, kind: VariableType },
}

/// A step of building a circuit, in mathematical terms.
pub enum Step {
    Input { label: Seq<char>, value: int },
    Gate { left: int, right: int, gate: GateType, kind: VariableType },
}

impl<F: FieldElement> View for BuilderStep<F> {
    type V = Step;

    open spec fn view(&self) -> Step {
        match self {
            BuilderStep::Input { label, value } => Step::Input {
                label: label@,
                value: value.val(),
            },
            BuilderStep::Gate { left, right, gate, kind } => Step::Gate {
                left: *left as int,
                right: *right as int,
                gate: *gate,
                kind: *kind,
            },
        }
    }
}

/// The steps that a list holds.
pub open spec fn steps<F: FieldElement>(list: Seq<BuilderStep<F>>) -> Seq<Step> {
    Seq::new(list.len(), |k: int| list[k]@)
}

/// The circuit that starts from `f0` and `f1` and adds `n` times. Its inputs are the number one, `f0`
/// and `f1`. Each sum takes the two variables before it, and its outputs are the last two of all
/// these variables, each times one.
pub open spec fn fibonacci_steps(f0: int, f1: int, n: nat) -> Seq<Step> {
    Seq::new(
        n + 5,
        |k: int|
            if k == 0 {
                Step::Input { label: "one"@, value: 1 }
            } else if k == 1 {
                Step::Input { label: "f0"@, value: f0 }
            } else if k == 2 {
                Step::Input { label: "f1"@, value: f1 }
            } else if k < n + 3 {
                Step::Gate {
                    left: k - 2,
                    right: k - 1,
                    gate: GateType::Add,
                    kind: VariableType::Witness,
                }
            } else {
                Step::Gate {
                    left: k - 2,
                    right: 0,
                    gate: GateType::Mul,
                    kind: VariableType::Output,
                }
            },
    )
}

/// Lists the steps of the circuit that starts from `f0_val` and `f1_val`, adds `num_steps` times, and
/// puts out the last two members of the sequence.
pub fn build_fibonacci_output_circuit<F: FftField>(
    f0_val: F,
    f1_val: F,
    num_steps: usize,
) -> (r: Vec<BuilderStep<F>>)
    requires
        num_steps + 5 <= usize::MAX,
    ensures
        r@.len() == num_steps + 5,
        steps(r@) == fibonacci_steps(f0_val.val(), f1_val.val(), num_steps as nat),
        r@[0] matches BuilderStep::Input { label, value } && label@ == "one"@ && value.val() == 1,
        r@[1] matches BuilderStep::Input { label, value } && label@ == "f0"@ && value == f0_val,
        r@[2] matches BuilderStep::Input { label, value } && label@ == "f1"@ && value == f1_val,
        forall|k: int|
            3 <= k < num_steps + 3 ==> (#[trigger] r@[k] matches BuilderStep::Gate {
                left,
                right,
                gate,
                kind,
            } && left == k - 2 && right == k - 1 && gate == GateType::Add && kind
                == VariableType::Witness),
        forall|k: int|
            num_steps + 3 <= k < num_steps + 5 ==> (#[trigger] r@[k] matches BuilderStep::Gate {
                left,
                right,
                gate,
                kind,
            } && left == k - 2 && right == 0 && gate == GateType::Mul && kind
                == VariableType::Output),
{
    let ghost all = fibonacci_steps(f0_val.val(), f1_val.val(), num_steps as nat);
    let mut list: Vec<BuilderStep<F>> = Vec::new();
    list.push(BuilderStep::Input { label: "one", value: F::one() });
    list.push(BuilderStep::Input { label: "f0", value: f0_val });
    list.push(BuilderStep::Input { label: "f1", value: f1_val });
    let one: usize = 0;
    let mut prev: usize = 1;
    let mut curr: usize = 2;
    for k in 0..num_steps
        invariant
            num_steps + 5 <= usize::MAX,
            all == fibonacci_steps(f0_val.val(), f1_val.val(), num_steps as nat),
            list@.len() == k + 3,
            prev == k + 1,
            curr == k + 2,
            forall|j: int| 0 <= j < list@.len() ==> (#[trigger] list@[j])@ == all[j],
            list@[1] matches BuilderStep::Input { value, .. } && value == f0_val,
            list@[2] matches BuilderStep::Input { value, .. } && value == f1_val,
    {
        let next: usize = list.len();
        list.push(
            BuilderStep::Gate {
                left: prev,
                right: curr,
                gate: GateType::Add,
                kind: VariableType::Witness,
            },
        );
        prev = curr;
        curr = next;
    }
    list.push(
        BuilderStep::Gate {
            left: prev,
            right: one,
            gate: GateType::Mul,
            kind: VariableType::Output,
        },
    );
    list.push(
        BuilderStep::Gate {
            left: curr,
            right: one,
            gate: GateType::Mul,
            kind: VariableType::Output,
        },
    );
    proof {
        assert(steps(list@) =~= all);
        assert forall|j: int| 0 <= j < list@.len() implies (#[trigger] list@[j])@ == all[j] by {
            assert(steps(list@)[j] == all[j]);
        }
    }
    list
}

/// The value of the variable that the step `k` makes, modulo `p`.
pub open spec fn step_value(p: int, list: Seq<Step>, k: int) -> int
    decreases k,
{
    match list[k] {
        Step::Input { label, value } => value,
        Step::Gate { left, right, gate, kind } => if 0 <= left < k && 0 <= right < k {
            let (l, r) = (step_value(p, list, left), step_value(p, list, right));
            match gate {
                GateType::Add => (l + r) % p,
                GateType::Mul => (l * r) % p,
            }
        } else {
            0
        },
    }
}

/// The members `n` and `n + 1` of the Fibonacci sequence modulo `p` that starts with `f0` and `f1`.
pub open spec fn fibonacci_pair(p: int, f0: int, f1: int, n: nat) -> (int, int)
    decreases n,
{
    if n == 0 {
        (f0, f1)
    } else {
        let (prev, curr) = fibonacci_pair(p, f0, f1, (n - 1) as nat);
        (curr, (prev + curr) % p)
    }
}

proof fn lemma_sums<F: FieldElement>(f0: F, f1: F, n: nat, k: nat)
    requires
        k <= n,
    ensures
        ({
            let list = fibonacci_steps(f0.val(), f1.val(), n);
            let (prev, curr) = fibonacci_pair(F::modulus(), f0.val(), f1.val(), k);
            &&& step_value(F::modulus(), list, k as int + 1) == prev
            &&& step_value(F::modulus(), list, k as int + 2) == curr
            &&& 0 <= prev < F::modulus()
            &&& 0 <= curr < F::modulus()
        }),
    decreases k,
{
    F::lemma_modulus();
    f0.lemma_val();
    f1.lemma_val();
    if k > 0 {
        lemma_sums(f0, f1, n, (k - 1) as nat);
    }
}

/// Where each step is computed modulo the field's order, the two outputs of the circuit are the
/// members `n` and `n + 1` of the Fibonacci sequence.
pub proof fn lemma_fibonacci_outputs<F: FieldElement>(f0: F, f1: F, n: nat)
    ensures
        ({
            let list = fibonacci_steps(f0.val(), f1.val(), n);
            let (prev, curr) = fibonacci_pair(F::modulus(), f0.val(), f1.val(), n);
            &&& step_value(F::modulus(), list, n as int + 3) == prev
            &&& step_value(F::modulus(), list, n as int + 4) == curr
        }),
{
    let p = F::modulus();
    let list = fibonacci_steps(f0.val(), f1.val(), n);
    let (prev, curr) = fibonacci_pair(p, f0.val(), f1.val(), n);
    lemma_sums(f0, f1, n, n);
    lemma_residue_small(p, prev);
    lemma_residue_small(p, curr);
    assert(step_value(p, list, 0) == 1);
    let (gate, kind) = (GateType::Mul, VariableType::Output);
    assert(list[n as int + 3] == Step::Gate { left: n as int + 1, right: 0, gate, kind });
    assert(list[n as int + 4] == Step::Gate { left: n as int + 2, right: 0, gate, kind });
    assert(prev * 1 == prev && curr * 1 == curr);
}

/// The inputs of the circuit are exactly its first three steps, its outputs exactly its last two, and
/// every other gate makes a witness.
pub proof fn lemma_inputs_first_outputs_last(f0: int, f1: int, n: nat)
    ensures
        fibonacci_steps(f0, f1, n).len() == n + 5,
        forall|k: int|
            0 <= k < n + 5 ==> {
                &&& (#[trigger] fibonacci_steps(f0, f1, n)[k] is Input <==> k < 3)
                &&& ((fibonacci_steps(f0, f1, n)[k] matches Step::Gate { kind, .. } && kind
                    == VariableType::Output) <==> k >= n + 3)
                &&& ((fibonacci_steps(f0, f1, n)[k] matches Step::Gate { kind, .. } && kind
                    == VariableType::Witness) <==> 3 <= k < n + 3)
            },
{
}

/// Each gate of the circuit takes variables that earlier steps made.
pub proof fn lemma_operands_made_before(f0: int, f1: int, n: nat, k: int)
    requires
        0 <= k < fibonacci_steps(f0, f1, n).len(),
    ensures
        fibonacci_steps(f0, f1, n)[k] matches Step::Gate { left, right, .. } ==> 0 <= left < k && 0
            <= right < k,
{
}

/// A longer circuit starts with the inputs and the sums of a shorter one, and a circuit with one sum
/// more has one step more.
pub proof fn lemma_longer_circuit(f0: int, f1: int, n: nat, m: nat)
    requires
        n <= m,
    ensures
        fibonacci_steps(f0, f1, m).take(n as int + 3) == fibonacci_steps(f0, f1, n).take(n as int + 3),
        fibonacci_steps(f0, f1, m).len() - fibonacci_steps(f0, f1, n).len() == m - n,
{
    assert(fibonacci_steps(f0, f1, m).take(n as int + 3) =~= fibonacci_steps(f0, f1, n).take(
        n as int + 3,
    ));
}

/// Whatever values the variables have: if each is the value of its input, or what its gate computes
/// of its operands, then the values of the outputs, in order, are the members `n` and `n + 1` of each
/// sequence that starts with `f0` and `f1` and goes on by sums of two members. The variables before
/// the outputs run through that sequence.
pub proof fn lemma_run_is_fibonacci<F: FieldElement>(
    f0: F,
    f1: F,
    n: nat,
    vals: Seq<int>,
    g: Seq<int>,
)
    requires
        vals.len() == n + 5,
        forall|k: int|
            0 <= k < n + 5 ==> match #[trigger] fibonacci_steps(f0.val(), f1.val(), n)[k] {
                Step::Input { label, value } => vals[k] == value,
                Step::Gate { left, right, gate: GateType::Add, kind } => vals[k] == (vals[left]
                    + vals[right]) % F::modulus(),
                Step::Gate { left, right, gate: GateType::Mul, kind } => vals[k] == (vals[left]
                    * vals[right]) % F::modulus(),
            },
        g.len() == n + 2,
        g[0] == f0.val(),
        g[1] == f1.val(),
        forall|j: int| 2 <= j < n + 2 ==> #[trigger] g[j] == (g[j - 2] + g[j - 1]) % F::modulus(),
    ensures
        vals[0] == 1,
        forall|j: int| 0 <= j < n + 2 ==> vals[j + 1] == #[trigger] g[j],
        vals[n as int + 3] == g[n as int],
        vals[n as int + 4] == g[n as int + 1],
{
    let p = F::modulus();
    let list = fibonacci_steps(f0.val(), f1.val(), n);
    assert(list[0] == Step::Input { label: "one"@, value: 1 });
    assert forall|j: int| 0 <= j < n + 2 implies vals[j + 1] == #[trigger] g[j] && 0 <= g[j] < p by {
        lemma_run_member(f0, f1, n, vals, g, j as nat);
    }
    let (prev, curr) = (g[n as int], g[n as int + 1]);
    let (gate, kind) = (GateType::Mul, VariableType::Output);
    assert(list[n as int + 3] == Step::Gate { left: n as int + 1, right: 0, gate, kind });
    assert(list[n as int + 4] == Step::Gate { left: n as int + 2, right: 0, gate, kind });
    assert(vals[n as int + 1] == prev && vals[n as int + 2] == curr);
    assert(prev * 1 == prev && curr * 1 == curr);
    lemma_residue_small(p, prev);
    lemma_residue_small(p, curr);
}

proof fn lemma_run_member<F: FieldElement>(
    f0: F,
    f1: F,
    n: nat,
    vals: Seq<int>,
    g: Seq<int>,
    j: nat,
)
    requires
        j < n + 2,
        vals.len() == n + 5,
        forall|k: int|
            0 <= k < n + 5 ==> match #[trigger] fibonacci_steps(f0.val(), f1.val(), n)[k] {
                Step::Input { label, value } => vals[k] == value,
                Step::Gate { left, right, gate: GateType::Add, kind } => vals[k] == (vals[left]
                    + vals[right]) % F::modulus(),
                Step::Gate { left, right, gate: GateType::Mul, kind } => vals[k] == (vals[left]
                    * vals[right]) % F::modulus(),
            },
        g.len() == n + 2,
        g[0] == f0.val(),
        g[1] == f1.val(),
        forall|i: int| 2 <= i < n + 2 ==> #[trigger] g[i] == (g[i - 2] + g[i - 1]) % F::modulus(),
    ensures
        vals[j as int + 1] == g[j as int],
        0 <= g[j as int] < F::modulus(),
    decreases j,
{
    let list = fibonacci_steps(f0.val(), f1.val(), n);
    F::lemma_modulus();
    f0.lemma_val();
    f1.lemma_val();
    assert(list[1] == Step::Input { label: "f0"@, value: f0.val() });
    assert(list[2] == Step::Input { label: "f1"@, value: f1.val() });
    if j >= 2 {
        let k = j as int + 1;
        lemma_run_member(f0, f1, n, vals, g, (j - 2) as nat);
        lemma_run_member(f0, f1, n, vals, g, (j - 1) as nat);
        let (gate, kind) = (GateType::Add, VariableType::Witness);
        assert(list[k] == Step::Gate { left: k - 2, right: k - 1, gate, kind });
        lemma_cong_residue(F::modulus(), g[j - 2] + g[j - 1]);
    }
}

} // verus!
