//! What the constraints of a circuit say: the layout of its variables, and that its constraints hold of
//! the values of its columns exactly where its matrices do.

use vstd::prelude::*;

use crate::ac_bridge::{internal_columns, row_form, AcCircuit};
use crate::field::{values, FieldElement};
use crate::modular::{cong, lemma_cong_add, lemma_cong_mul, lemma_cong_residue};
use crate::r1cs::{total, with_term, Constraint, Form, SystemState, Variable};

verus! {

/// The value that a system assigns to a variable.
pub open spec fn variable_value(state: SystemState, v: Variable) -> int {
    match v {
        Variable::Zero => 0,
        Variable::One => 1,
        Variable::Instance(i) => state.instance_values[i as int],
        Variable::Witness(i) => state.witness_values[i as int],
    }
}

/// The value of a linear form: the sum of its coefficients times the values of their variables.
pub open spec fn form_value(state: SystemState, form: Form) -> int
    decreases form.dom().len(),
{
    if form.dom().finite() && form.dom().len() > 0 {
        let v = form.dom().choose();
        form_value(state, form.remove(v)) + form[v] * variable_value(state, v)
    } else {
        0
    }
}

/// A constraint holds of the values that a system assigns.
pub open spec fn constraint_holds(p: int, state: SystemState, k: Constraint) -> bool {
    cong(p, form_value(state, k.a) * form_value(state, k.b), form_value(state, k.c))
}

/// Each constraint of a system holds.
pub open spec fn satisfied(p: int, state: SystemState) -> bool {
    forall|k: int|
        0 <= k < state.constraints.len() ==> constraint_holds(
            p,
            state,
            #[trigger] state.constraints[k],
        )
}

/// The sum of the first `k` entries of a row times the values of their columns.
pub open spec fn row_value<F: FieldElement>(row: Seq<(F, usize)>, z: Seq<int>, k: nat) -> int
    decreases k,
{
    if k == 0 {
        0
    } else {
        row_value(row, z, (k - 1) as nat) + row[k - 1].0.val() * z[row[k - 1].1 as int]
    }
}

/// The rows of the three matrices agree on the values `z` of the columns: the product of the first
/// two is the third.
pub open spec fn row_holds<F: FieldElement>(circuit: AcCircuit<F>, z: Seq<int>, r: int) -> bool {
    cong(
        F::modulus(),
        row_value(circuit.a@[r]@, z, circuit.a@[r]@.len()) * row_value(
            circuit.b@[r]@,
            z,
            circuit.b@[r]@.len(),
        ),
        row_value(circuit.c@[r]@, z, circuit.c@[r]@.len()),
    )
}

/// The values that the columns have in a constraint system: those of the assignment, but one in the
/// column of the constant, whatever the assignment says of it.
pub open spec fn column_values<F: FieldElement>(circuit: AcCircuit<F>) -> Seq<int> {
    let all = values(circuit.assignment@);
    if circuit.t() >= 1 && circuit.s() < circuit.n() {
        all.update(0, 1)
    } else {
        all
    }
}

/// The value of a form by way of any of its variables.
proof fn lemma_form_value_remove(state: SystemState, form: Form, v: Variable)
    requires
        form.dom().finite(),
        form.dom().contains(v),
    ensures
        form_value(state, form) == form_value(state, form.remove(v)) + form[v] * variable_value(
            state,
            v,
        ),
    decreases form.dom().len(),
{
    let u = form.dom().choose();
    if u != v {
        lemma_form_value_remove(state, form.remove(u), v);
        lemma_form_value_remove(state, form.remove(v), u);
        assert(form.remove(u).remove(v) =~= form.remove(v).remove(u));
    }
}

proof fn lemma_form_value_with_term(p: int, state: SystemState, form: Form, c: int, v: Variable)
    requires
        p > 0,
        form.dom().finite(),
    ensures
        with_term(p, form, c, v).dom().finite(),
        cong(
            p,
            form_value(state, with_term(p, form, c, v)),
            form_value(state, form) + c * variable_value(state, v),
        ),
{
    let g = with_term(p, form, c, v);
    let (t, z) = (total(form, v), variable_value(state, v));
    lemma_form_value_remove(state, g, v);
    let rest = form_value(state, g.remove(v));
    if form.dom().contains(v) {
        assert(g.remove(v) =~= form.remove(v));
        lemma_form_value_remove(state, form, v);
    } else {
        assert(g.remove(v) =~= form);
    }
    lemma_cong_residue(p, t + c);
    lemma_cong_mul(p, (t + c) % p, t + c, z, z);
    lemma_cong_add(p, rest, rest, ((t + c) % p) * z, (t + c) * z);
    assert((t + c) * z == t * z + c * z) by (nonlinear_arith);
    assert(0 * z == 0);
}

proof fn lemma_row_form_value<F: FieldElement>(
    state: SystemState,
    row: Seq<(F, usize)>,
    vars: Seq<Variable>,
    z: Seq<int>,
    k: nat,
)
    requires
        k <= row.len(),
        forall|j: int| 0 <= j < row.len() ==> (#[trigger] row[j]).1 < vars.len(),
        forall|i: int| 0 <= i < vars.len() ==> variable_value(state, #[trigger] vars[i]) == z[i],
    ensures
        row_form(row, vars, k).dom().finite(),
        cong(F::modulus(), form_value(state, row_form(row, vars, k)), row_value(row, z, k)),
    decreases k,
{
    F::lemma_modulus();
    let p = F::modulus();
    if k > 0 {
        let j = (k - 1) as nat;
        lemma_row_form_value(state, row, vars, z, j);
        let (c, i) = (row[j as int].0.val(), row[j as int].1 as int);
        lemma_form_value_with_term(p, state, row_form(row, vars, j), c, vars[i]);
        lemma_cong_add(
            p,
            form_value(state, row_form(row, vars, j)),
            row_value(row, z, j),
            c * z[i],
            c * z[i],
        );
    }
}

/// The layout of the variables: column 0 is the constant one, the columns of the inputs are the new
/// instance variables in order, those of the internal witnesses the next witnesses in order, and
/// the last witnesses of the system are the columns of the outputs in order. A column that counts
/// both as an input and as an output is an output.
pub proof fn lemma_variable_layout<F: FieldElement>(circuit: AcCircuit<F>, state: SystemState)
    requires
        circuit.well_formed(),
        state.has_room(
            circuit.input_values().len() as int,
            circuit.witness_values().len() as int,
            circuit.a@.len() as int,
        ),
    ensures
        ({
            let t = circuit.index_info.number_of_input_rows as int;
            let s = circuit.index_info.number_of_outputs as int;
            let n = circuit.assignment@.len() as int;
            let vars = circuit.column_variables(state);
            let end = circuit.synthesized(state).witness_count;
            &&& vars.len() == n
            &&& t >= 1 && s < n ==> vars[0] == Variable::One
            &&& forall|i: int|
                1 <= i < t && i < n - s ==> #[trigger] vars[i] == Variable::Instance(
                    (state.instance_count + i - 1) as usize,
                )
            &&& forall|i: int|
                t <= i < n - s ==> #[trigger] vars[i] == Variable::Witness(
                    (state.witness_count + i - t) as usize,
                )
            &&& forall|i: int|
                n - s <= i < n ==> #[trigger] vars[i] == Variable::Witness((end - (n - i)) as usize)
        }),
{
}

/// Distinct columns have distinct variables.
pub proof fn lemma_columns_distinct<F: FieldElement>(
    circuit: AcCircuit<F>,
    state: SystemState,
    i: int,
    j: int,
)
    requires
        circuit.well_formed(),
        state.has_room(
            circuit.input_values().len() as int,
            circuit.witness_values().len() as int,
            circuit.a@.len() as int,
        ),
        0 <= i < j < circuit.n(),
    ensures
        circuit.column_variables(state)[i] != circuit.column_variables(state)[j],
{
}

/// The system keeps a value for each of its variables.
pub open spec fn assigned(state: SystemState) -> bool {
    &&& state.assigns
    &&& state.instance_values.len() == state.instance_count
    &&& state.witness_values.len() == state.witness_count
}

/// After a circuit was added to a system that keeps values, the variable of each column has the value
/// of the column, which is the assigned one but for the constant, and the variables of before have the
/// values of before.
pub proof fn lemma_values_kept<F: FieldElement>(circuit: AcCircuit<F>, state: SystemState)
    requires
        circuit.well_formed(),
        state.has_room(
            circuit.input_values().len() as int,
            circuit.witness_values().len() as int,
            circuit.a@.len() as int,
        ),
        assigned(state),
    ensures
        assigned(circuit.synthesized(state)),
        forall|i: int|
            0 <= i < circuit.n() ==> variable_value(
                circuit.synthesized(state),
                #[trigger] circuit.column_variables(state)[i],
            ) == column_values(circuit)[i],
        forall|i: int|
            0 <= i < state.instance_count ==> #[trigger] circuit.synthesized(
                state,
            ).instance_values[i] == state.instance_values[i],
        forall|i: int|
            0 <= i < state.witness_count ==> #[trigger] circuit.synthesized(state).witness_values[i]
                == state.witness_values[i],
{
    let st = circuit.synthesized(state);
    let all = values(circuit.assignment@);
    let (t, s, n) = (circuit.t(), circuit.s(), circuit.n());
    assert forall|i: int| 0 <= i < n implies variable_value(
        st,
        #[trigger] circuit.column_variables(state)[i],
    ) == column_values(circuit)[i] by {
        if i >= n - s {
            let k = internal_columns(t, s, n) + i - (n - s);
            assert(circuit.witness_values()[k] == all[i]);
        } else if i >= t {
            assert(circuit.witness_values()[i - t] == all[i]);
        } else if i > 0 {
            assert(circuit.input_values()[i - 1] == all[i]);
        }
    }
}

/// The constraint of a row holds of the values in the system exactly where the rows of the three
/// matrices agree on the values of the columns.
pub proof fn lemma_row_constraint_holds<F: FieldElement>(
    circuit: AcCircuit<F>,
    state: SystemState,
    r: int,
)
    requires
        circuit.well_formed(),
        state.has_room(
            circuit.input_values().len() as int,
            circuit.witness_values().len() as int,
            circuit.a@.len() as int,
        ),
        assigned(state),
        0 <= r < circuit.a@.len(),
    ensures
        constraint_holds(
            F::modulus(),
            circuit.synthesized(state),
            circuit.row_constraint(circuit.column_variables(state), r),
        ) <==> row_holds(circuit, column_values(circuit), r),
{
    let p = F::modulus();
    let st = circuit.synthesized(state);
    let vars = circuit.column_variables(state);
    let z = column_values(circuit);
    F::lemma_modulus();
    lemma_values_kept(circuit, state);
    let (a, b, c) = (circuit.a@[r]@, circuit.b@[r]@, circuit.c@[r]@);
    lemma_row_form_value(st, a, vars, z, a.len());
    lemma_row_form_value(st, b, vars, z, b.len());
    lemma_row_form_value(st, c, vars, z, c.len());
    let k = circuit.row_constraint(vars, r);
    lemma_cong_mul(
        p,
        form_value(st, k.a),
        row_value(a, z, a.len()),
        form_value(st, k.b),
        row_value(b, z, b.len()),
    );
}

/// A system to which a circuit was added is satisfied exactly where its constraints of before hold and
/// the matrices of the circuit agree on the values of the columns in each row.
pub proof fn lemma_satisfied_iff<F: FieldElement>(circuit: AcCircuit<F>, state: SystemState)
    requires
        circuit.well_formed(),
        state.has_room(
            circuit.input_values().len() as int,
            circuit.witness_values().len() as int,
            circuit.a@.len() as int,
        ),
        assigned(state),
        state.records,
    ensures
        satisfied(F::modulus(), circuit.synthesized(state)) <==> {
            &&& forall|k: int|
                0 <= k < state.constraints.len() ==> constraint_holds(
                    F::modulus(),
                    circuit.synthesized(state),
                    #[trigger] state.constraints[k],
                )
            &&& forall|r: int|
                0 <= r < circuit.a@.len() ==> #[trigger] row_holds(
                    circuit,
                    column_values(circuit),
                    r,
                )
        },
{
    let p = F::modulus();
    let st = circuit.synthesized(state);
    let vars = circuit.column_variables(state);
    let z = column_values(circuit);
    let m = state.constraints.len() as int;
    assert(st.constraints.len() == m + circuit.a@.len());
    assert forall|k: int| 0 <= k < m implies st.constraints[k] == #[trigger] state.constraints[k] by {}
    assert forall|r: int| 0 <= r < circuit.a@.len() implies (#[trigger] row_holds(circuit, z, r)
        <==> constraint_holds(p, st, st.constraints[m + r])) by {
        assert(st.constraints[m + r] == circuit.row_constraint(vars, r));
        lemma_row_constraint_holds(circuit, state, r);
    }
    if satisfied(p, st) {
        assert forall|k: int| 0 <= k < m implies constraint_holds(
            p,
            st,
            #[trigger] state.constraints[k],
        ) by {
            assert(constraint_holds(p, st, st.constraints[k]));
        }
        assert forall|r: int| 0 <= r < circuit.a@.len() implies #[trigger] row_holds(
            circuit,
            z,
            r,
        ) by {
            assert(constraint_holds(p, st, st.constraints[m + r]));
        }
    }
    if (forall|k: int|
        0 <= k < m ==> constraint_holds(p, st, #[trigger] state.constraints[k])) && (forall|r: int|
        0 <= r < circuit.a@.len() ==> #[trigger] row_holds(circuit, z, r)) {
        assert forall|k: int| 0 <= k < st.constraints.len() implies constraint_holds(
            p,
            st,
            #[trigger] st.constraints[k],
        ) by {
            if k < m {
                assert(constraint_holds(p, st, state.constraints[k]));
            } else {
                assert(row_holds(circuit, z, k - m));
            }
        }
    }
}

/// Where the assignment gives one to the column of the constant, a system to which a circuit was added
/// is satisfied exactly where its constraints of before hold and the matrices of the circuit agree on
/// the assignment in each row.
pub proof fn lemma_satisfied_by_assignment<F: FieldElement>(
    circuit: AcCircuit<F>,
    state: SystemState,
)
    requires
        circuit.well_formed(),
        state.has_room(
            circuit.input_values().len() as int,
            circuit.witness_values().len() as int,
            circuit.a@.len() as int,
        ),
        assigned(state),
        state.records,
        circuit.t() >= 1 && circuit.s() < circuit.n() ==> circuit.assignment@[0].val() == 1,
    ensures
        satisfied(F::modulus(), circuit.synthesized(state)) <==> {
            &&& forall|k: int|
                0 <= k < state.constraints.len() ==> constraint_holds(
                    F::modulus(),
                    circuit.synthesized(state),
                    #[trigger] state.constraints[k],
                )
            &&& forall|r: int|
                0 <= r < circuit.a@.len() ==> #[trigger] row_holds(
                    circuit,
                    values(circuit.assignment@),
                    r,
                )
        },
{
    assert(column_values(circuit) =~= values(circuit.assignment@));
    lemma_satisfied_iff(circuit, state);
}

} // verus!
