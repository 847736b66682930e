//! What adding a circuit does to a constraint system, in terms of the circuit's matrices and assignment:
//! how many variables and constraints it adds, which values become public, and that the constraints
//! are the rows in order.

use vstd::prelude::*;

use crate::ac_bridge::{columns_below, row_form, AcCircuit};
use crate::bn254_system::empty_state;
use crate::field::FieldElement;
use crate::modular::{lemma_cong_add, lemma_cong_residue, lemma_residue_small};
use crate::r1cs::{total, SystemState, Variable};
use crate::satisfaction::lemma_columns_distinct;

verus! {

/// A circuit adds one public input for each input row but the constant, one witness for each other
/// column and for each output, and one constraint for each row, empty rows among them. Nothing else
/// about the system changes.
pub proof fn lemma_counts<F: FieldElement>(circuit: AcCircuit<F>, state: SystemState)
    requires
        circuit.well_formed(),
    ensures
        ({
            let t = circuit.index_info.number_of_input_rows as int;
            let s = circuit.index_info.number_of_outputs as int;
            let n = circuit.assignment@.len() as int;
            let after = circuit.synthesized(state);
            &&& t >= 1 ==> after.instance_count == state.instance_count + (t - 1)
            &&& t == 0 ==> after.instance_count == state.instance_count
            &&& t + s <= n ==> after.witness_count == state.witness_count + (n - t)
            &&& t + s > n ==> after.witness_count == state.witness_count + s
            &&& after.constraint_count == state.constraint_count + circuit.a@.len()
            &&& state.records ==> after.combination_count == state.combination_count + 3
                * circuit.a@.len()
            &&& !state.records ==> after.combination_count == state.combination_count
            &&& after.present == state.present
            &&& after.assigns == state.assigns
            &&& after.records == state.records
            &&& after.indexed == state.indexed
        }),
{
}

/// The values that become public are those of the columns of the inputs, in order, behind the public
/// values of before: no column from `t` on becomes public.
pub proof fn lemma_public_values<F: FieldElement>(circuit: AcCircuit<F>, state: SystemState)
    requires
        circuit.well_formed(),
    ensures
        ({
            let t = circuit.index_info.number_of_input_rows as int;
            let m = state.instance_values.len() as int;
            let after = circuit.synthesized(state).instance_values;
            &&& state.assigns && t >= 1 ==> after.len() == m + (t - 1)
            &&& !state.assigns || t == 0 ==> after.len() == m
            &&& forall|i: int| 0 <= i < m ==> after[i] == #[trigger] state.instance_values[i]
            &&& state.assigns ==> forall|i: int|
                1 <= i < t ==> after[m + i - 1] == (#[trigger] circuit.assignment@[i]).val()
        }),
{
}

/// The values that become private are those of the internal columns, in order, and then those of the
/// outputs, in order, behind the private values of before.
pub proof fn lemma_private_values<F: FieldElement>(circuit: AcCircuit<F>, state: SystemState)
    requires
        circuit.well_formed(),
    ensures
        ({
            let t = circuit.index_info.number_of_input_rows as int;
            let s = circuit.index_info.number_of_outputs as int;
            let n = circuit.assignment@.len() as int;
            let m = state.witness_values.len() as int;
            let after = circuit.synthesized(state).witness_values;
            &&& state.assigns && t + s <= n ==> after.len() == m + (n - t)
            &&& state.assigns && t + s > n ==> after.len() == m + s
            &&& !state.assigns ==> after.len() == m
            &&& forall|i: int| 0 <= i < m ==> after[i] == #[trigger] state.witness_values[i]
            &&& state.assigns ==> forall|i: int|
                t <= i < n - s ==> after[m + i - t] == (#[trigger] circuit.assignment@[i]).val()
            &&& state.assigns ==> forall|i: int|
                n - s <= i < n ==> after[after.len() - (n - i)] == (
                #[trigger] circuit.assignment@[i]).val()
        }),
{
}

/// A system that keeps constraints has those of before and then one for each row. One that only
/// counts them has none more.
pub proof fn lemma_constraints_kept<F: FieldElement>(circuit: AcCircuit<F>, state: SystemState)
    ensures
        state.records ==> circuit.synthesized(state).constraints.len() == state.constraints.len()
            + circuit.a@.len(),
        !state.records ==> circuit.synthesized(state).constraints == state.constraints,
        forall|k: int|
            0 <= k < state.constraints.len() ==> circuit.synthesized(state).constraints[k]
                == #[trigger] state.constraints[k],
{
}

/// The constraints are the rows in order: in the forms of the new constraint number `r`, the variable of
/// the column `i` has the sum of the coefficients that the row `r` of each matrix lists for that
/// column.
pub proof fn lemma_rows_in_order<F: FieldElement>(
    circuit: AcCircuit<F>,
    state: SystemState,
    r: int,
    i: int,
)
    requires
        circuit.well_formed(),
        state.has_room(
            circuit.input_values().len() as int,
            circuit.witness_values().len() as int,
            circuit.a@.len() as int,
        ),
        state.records,
        0 <= r < circuit.a@.len(),
        0 <= i < circuit.assignment@.len(),
    ensures
        total(
            circuit.synthesized(state).constraints[state.constraints.len() + r].a,
            circuit.column_variables(state)[i],
        ) == circuit.a@[r]@.fold_left(
            0int,
            |sum: int, entry: (F, usize)|
                if entry.1 == i {
                    sum + entry.0.val()
                } else {
                    sum
                },
        ) % F::modulus(),
        total(
            circuit.synthesized(state).constraints[state.constraints.len() + r].b,
            circuit.column_variables(state)[i],
        ) == circuit.b@[r]@.fold_left(
            0int,
            |sum: int, entry: (F, usize)|
                if entry.1 == i {
                    sum + entry.0.val()
                } else {
                    sum
                },
        ) % F::modulus(),
        total(
            circuit.synthesized(state).constraints[state.constraints.len() + r].c,
            circuit.column_variables(state)[i],
        ) == circuit.c@[r]@.fold_left(
            0int,
            |sum: int, entry: (F, usize)|
                if entry.1 == i {
                    sum + entry.0.val()
                } else {
                    sum
                },
        ) % F::modulus(),
{
    let vars = circuit.column_variables(state);
    assert forall|j: int| 0 <= j < vars.len() && j != i implies #[trigger] vars[j] != vars[i] by {
        if j < i {
            lemma_columns_distinct(circuit, state, j, i);
        } else {
            lemma_columns_distinct(circuit, state, i, j);
        }
    }
    lemma_column_total(circuit.a@[r]@, vars, i);
    lemma_column_total(circuit.b@[r]@, vars, i);
    lemma_column_total(circuit.c@[r]@, vars, i);
}

/// In the forms of the new constraint number `r` occur exactly the variables of the columns that the
/// row `r` of each matrix lists.
pub proof fn lemma_row_variables<F: FieldElement>(
    circuit: AcCircuit<F>,
    state: SystemState,
    r: int,
    v: Variable,
)
    requires
        circuit.well_formed(),
        state.records,
        0 <= r < circuit.a@.len(),
    ensures
        circuit.synthesized(state).constraints[state.constraints.len() + r].a.dom().contains(v)
            <==> exists|j: int|
            0 <= j < circuit.a@[r]@.len() && v == circuit.column_variables(
                state,
            )[(#[trigger] circuit.a@[r]@[j]).1 as int],
        circuit.synthesized(state).constraints[state.constraints.len() + r].b.dom().contains(v)
            <==> exists|j: int|
            0 <= j < circuit.b@[r]@.len() && v == circuit.column_variables(
                state,
            )[(#[trigger] circuit.b@[r]@[j]).1 as int],
        circuit.synthesized(state).constraints[state.constraints.len() + r].c.dom().contains(v)
            <==> exists|j: int|
            0 <= j < circuit.c@[r]@.len() && v == circuit.column_variables(
                state,
            )[(#[trigger] circuit.c@[r]@[j]).1 as int],
{
    let vars = circuit.column_variables(state);
    lemma_row_occurs(circuit.a@[r]@, vars, v, circuit.a@[r]@.len());
    lemma_row_occurs(circuit.b@[r]@, vars, v, circuit.b@[r]@.len());
    lemma_row_occurs(circuit.c@[r]@, vars, v, circuit.c@[r]@.len());
}

proof fn lemma_row_occurs<F: FieldElement>(
    row: Seq<(F, usize)>,
    vars: Seq<Variable>,
    v: Variable,
    k: nat,
)
    requires
        k <= row.len(),
    ensures
        row_form(row, vars, k).dom().contains(v) <==> exists|j: int|
            0 <= j < k && v == vars[(#[trigger] row[j]).1 as int],
    decreases k,
{
    if k > 0 {
        lemma_row_occurs(row, vars, v, (k - 1) as nat);
        if v == vars[row[k - 1].1 as int] {
            assert(row_form(row, vars, k).dom().contains(v));
        }
    }
}

proof fn lemma_column_total<F: FieldElement>(row: Seq<(F, usize)>, vars: Seq<Variable>, i: int)
    requires
        0 <= i < vars.len(),
        forall|j: int| 0 <= j < row.len() ==> (#[trigger] row[j]).1 < vars.len(),
        forall|j: int| 0 <= j < vars.len() && j != i ==> #[trigger] vars[j] != vars[i],
    ensures
        total(row_form(row, vars, row.len()), vars[i]) == row.fold_left(
            0int,
            |sum: int, entry: (F, usize)|
                if entry.1 == i {
                    sum + entry.0.val()
                } else {
                    sum
                },
        ) % F::modulus(),
{
    lemma_prefix_total(row, vars, i, row.len());
    assert(row.take(row.len() as int) =~= row);
}

proof fn lemma_prefix_total<F: FieldElement>(
    row: Seq<(F, usize)>,
    vars: Seq<Variable>,
    i: int,
    k: nat,
)
    requires
        k <= row.len(),
        0 <= i < vars.len(),
        forall|j: int| 0 <= j < row.len() ==> (#[trigger] row[j]).1 < vars.len(),
        forall|j: int| 0 <= j < vars.len() && j != i ==> #[trigger] vars[j] != vars[i],
    ensures
        total(row_form(row, vars, k), vars[i]) == row.take(k as int).fold_left(
            0int,
            |sum: int, entry: (F, usize)|
                if entry.1 == i {
                    sum + entry.0.val()
                } else {
                    sum
                },
        ) % F::modulus(),
    decreases k,
{
    let p = F::modulus();
    let add_entry = |sum: int, entry: (F, usize)|
        if entry.1 == i {
            sum + entry.0.val()
        } else {
            sum
        };
    F::lemma_modulus();
    if k == 0 {
        lemma_residue_small(p, 0);
    } else {
        let before = (k - 1) as nat;
        lemma_prefix_total(row, vars, i, before);
        assert(row.take(k as int).drop_last() =~= row.take(before as int));
        let (c, col) = (row[before as int].0.val(), row[before as int].1 as int);
        let sum = row.take(before as int).fold_left(0int, add_entry);
        lemma_cong_residue(p, sum);
        lemma_cong_add(p, sum % p, sum, c, c);
        assert(row.take(k as int).last() == row[before as int]);
        if col != i {
            assert(vars[col] != vars[i]);
        }
    }
}

/// A circuit that is added to a missing system without an error is one that would leave each system as
/// it is, and each such circuit is.
pub proof fn lemma_trivial_adds_nothing<F: FieldElement>(circuit: AcCircuit<F>, state: SystemState)
    requires
        circuit.well_formed(),
    ensures
        circuit.is_trivial() <==> {
            &&& circuit.synthesized(state).instance_count == state.instance_count
            &&& circuit.synthesized(state).witness_count == state.witness_count
            &&& circuit.synthesized(state).constraint_count == state.constraint_count
        },
        circuit.is_trivial() ==> circuit.synthesized(state) == state,
{
    if circuit.is_trivial() {
        assert(circuit.synthesized(state) =~= state);
    }
}

/// A system takes each circuit whose inputs and outputs are columns and whose matrices have a row for
/// each constraint with entries in columns alone, if its counters do not run over. Combinations are
/// counted only where constraints are kept.
pub proof fn lemma_system_has_room<F: FieldElement>(circuit: AcCircuit<F>, state: SystemState)
    requires
        1 <= circuit.assignment@.len(),
        circuit.index_info.number_of_input_rows <= circuit.assignment@.len(),
        circuit.index_info.number_of_outputs <= circuit.assignment@.len(),
        circuit.b@.len() >= circuit.a@.len(),
        circuit.c@.len() >= circuit.a@.len(),
        forall|r: int, k: int|
            0 <= r < circuit.a@.len() && 0 <= k < circuit.a@[r]@.len() ==> (
            #[trigger] circuit.a@[r]@[k]).1 < circuit.assignment@.len(),
        forall|r: int, k: int|
            0 <= r < circuit.a@.len() && 0 <= k < circuit.b@[r]@.len() ==> (
            #[trigger] circuit.b@[r]@[k]).1 < circuit.assignment@.len(),
        forall|r: int, k: int|
            0 <= r < circuit.a@.len() && 0 <= k < circuit.c@[r]@.len() ==> (
            #[trigger] circuit.c@[r]@[k]).1 < circuit.assignment@.len(),
        state.instance_count <= usize::MAX,
        state.instance_count + circuit.index_info.number_of_input_rows <= usize::MAX + 1,
        state.witness_count + circuit.index_info.number_of_outputs <= usize::MAX,
        state.witness_count + circuit.assignment@.len() - circuit.index_info.number_of_input_rows
            <= usize::MAX,
        state.constraint_count + circuit.a@.len() <= usize::MAX,
        state.records ==> state.indexed && state.combination_count + 3 * circuit.a@.len()
            <= usize::MAX,
    ensures
        circuit.well_formed(),
        state.has_room(
            circuit.input_values().len() as int,
            circuit.witness_values().len() as int,
            circuit.a@.len() as int,
        ),
{
    assert(columns_below(circuit.a, circuit.a@.len() as int, circuit.n()));
    assert(columns_below(circuit.b, circuit.a@.len() as int, circuit.n()));
    assert(columns_below(circuit.c, circuit.a@.len() as int, circuit.n()));
}

/// A new system has the constant one as its one public input, keeps values and constraints, and holds
/// nothing else.
pub proof fn lemma_new_system()
    ensures
        empty_state().present,
        empty_state().assigns,
        empty_state().records,
        empty_state().indexed,
        empty_state().instance_count == 1,
        empty_state().instance_values == seq![1int],
        empty_state().witness_count == 0,
        empty_state().witness_values.len() == 0,
        empty_state().constraint_count == 0,
        empty_state().constraints.len() == 0,
        empty_state().combination_count == 0,
{
}

/// Where there is no system, a well-formed circuit is taken, and so is each circuit with an input
/// column, or with an internal column or an output, whatever its rows are.
pub proof fn lemma_read_without_system<F: FieldElement>(circuit: AcCircuit<F>)
    ensures
        circuit.well_formed() ==> circuit.start_fits(),
        circuit.index_info.number_of_input_rows > 1 && circuit.assignment@.len() > 1
            ==> circuit.start_fits(),
        circuit.index_info.number_of_input_rows <= 1 && 1 <= circuit.assignment@.len()
            && circuit.index_info.number_of_outputs <= circuit.assignment@.len() && (
        circuit.index_info.number_of_outputs > 0 || circuit.index_info.number_of_input_rows
            < circuit.assignment@.len()) ==> circuit.start_fits(),
{
}

} // verus!
