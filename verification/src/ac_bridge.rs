//! Bridge between the matrices of a compiled arithmetic circuit and a constraint system.
//!
//! # Variable layout
//!
//! The compiled matrices number their columns as follows:
//! - column 0: the constant one;
//! - columns `1..t`: the public inputs, where `t` is the number of input rows;
//! - columns `t..n-s`: internal witnesses;
//! - columns `n-s..n`: the outputs, where `s` is the number of outputs.
//!
//! Variables are added in the order of their columns, so the last `s` witnesses are the outputs.

use vstd::prelude::*;

use crate::field::{values, FieldElement};
use crate::r1cs::{
    no_terms, with_term, Constraint, ConstraintSystem, Form, GenerationError, SystemState, Variable,
};

verus! {

/// A sparse matrix: each row lists its nonzero entries with their columns.
pub type Matrix<F> = Vec<Vec<(F, usize)>>;

/// The dimensions of the matrices of a compiled circuit.
#[derive(Clone, Copy, Debug)]
pub struct R1CSfIndex {
    pub number_of_constraints: usize,
    /// The number of input rows, the constant one among them.
    pub number_of_input_rows: usize,
    pub number_of_outputs: usize,
    pub number_of_non_zero_entries: usize,
}

/// A compiled circuit with an assignment to its variables.
#[derive(Clone, Debug)]
pub struct AcCircuit<F> {
    pub a: Matrix<F>,
    pub b: Matrix<F>,
    pub c: Matrix<F>,
    /// The value of each column.
    pub assignment: Vec<F>,
    pub index_info: R1CSfIndex,
}

/// The variable of column `i` out of `n`, with `t` input rows and `s` outputs, in a system that held
/// `instances` public inputs and `witnesses` witnesses before.
pub open spec fn column_variable(
    t: int,
    s: int,
    n: int,
    instances: int,
    witnesses: int,
    i: int,
) -> Variable {
    if i >= n - s {
        Variable::Witness((witnesses + internal_columns(t, s, n) + i - (n - s)) as usize)
    } else if i >= t {
        Variable::Witness((witnesses + i - t) as usize)
    } else if i == 0 {
        Variable::One
    } else {
        Variable::Instance((instances + i - 1) as usize)
    }
}

/// The number of columns between the inputs and the outputs.
pub open spec fn internal_columns(t: int, s: int, n: int) -> int {
    if t < n - s {
        n - s - t
    } else {
        0
    }
}

/// The linear form of the first `k` entries of a row whose columns stand for the variables `vars`.
pub open spec fn row_form<F: FieldElement>(row: Seq<(F, usize)>, vars: Seq<Variable>, k: nat) -> Form
    decreases k,
{
    if k == 0 {
        no_terms()
    } else {
        with_term(
            F::modulus(),
            row_form(row, vars, (k - 1) as nat),
            row[k - 1].0.val(),
            vars[row[k - 1].1 as int],
        )
    }
}

/// The columns of the first `rows` rows of a matrix are below `n`.
pub open spec fn columns_below<F>(m: Matrix<F>, rows: int, n: int) -> bool {
    &&& m@.len() >= rows
    &&& forall|r: int, k: int|
        0 <= r < rows && 0 <= k < m@[r]@.len() ==> (#[trigger] m@[r]@[k]).1 < n
}

impl<F: FieldElement> AcCircuit<F> {
    /// The number of input rows.
    pub open spec fn t(self) -> int {
        self.index_info.number_of_input_rows as int
    }

    /// The number of outputs.
    pub open spec fn s(self) -> int {
        self.index_info.number_of_outputs as int
    }

    /// The number of columns.
    pub open spec fn n(self) -> int {
        self.assignment@.len() as int
    }

    /// The first `rows` rows of the matrices are there, with entries in columns alone.
    pub open spec fn rows_fit(self, rows: int) -> bool {
        &&& columns_below(self.a, rows, self.n())
        &&& columns_below(self.b, rows, self.n())
        &&& columns_below(self.c, rows, self.n())
    }

    /// The inputs and the outputs are columns, and each matrix has a row for each constraint, with
    /// entries in columns alone.
    pub open spec fn well_formed(self) -> bool {
        &&& self.n() >= 1
        &&& self.t() <= self.n()
        &&& self.s() <= self.n()
        &&& self.rows_fit(self.a@.len() as int)
    }

    /// What is read of the circuit where there is no constraint system is there. Nothing is read
    /// past the first variable or, where there is none, past the first row.
    pub open spec fn start_fits(self) -> bool {
        &&& self.n() >= 1
        &&& if self.t() > 1 {
            self.n() > 1
        } else {
            &&& self.s() <= self.n()
            &&& self.t() < self.n() || self.s() > 0 || self.a@.len() == 0 || self.rows_fit(1)
        }
    }

    /// The variables of the columns, in a system that held `state` before.
    pub open spec fn column_variables(self, state: SystemState) -> Seq<Variable> {
        Seq::new(
            self.n() as nat,
            |i: int|
                column_variable(
                    self.t(),
                    self.s(),
                    self.n(),
                    state.instance_count as int,
                    state.witness_count as int,
                    i,
                ),
        )
    }

    /// The values of the public inputs.
    pub open spec fn input_values(self) -> Seq<int> {
        if self.t() > 1 {
            values(self.assignment@).subrange(1, self.t())
        } else {
            Seq::empty()
        }
    }

    /// The values of the witnesses: of the internal columns, then of the outputs.
    pub open spec fn witness_values(self) -> Seq<int> {
        let all = values(self.assignment@);
        let outputs = all.subrange(self.n() - self.s(), self.n());
        if self.t() < self.n() - self.s() {
            all.subrange(self.t(), self.n() - self.s()) + outputs
        } else {
            outputs
        }
    }

    /// The constraint of the row `r`, over the given variables of the columns.
    pub open spec fn row_constraint(self, vars: Seq<Variable>, r: int) -> Constraint {
        Constraint {
            a: row_form(self.a@[r]@, vars, self.a@[r]@.len()),
            b: row_form(self.b@[r]@, vars, self.b@[r]@.len()),
            c: row_form(self.c@[r]@, vars, self.c@[r]@.len()),
        }
    }

    /// What a system that held `state` holds after the circuit was added to it.
    pub open spec fn synthesized(self, state: SystemState) -> SystemState {
        let vars = self.column_variables(state);
        state.with_instances(self.input_values()).with_witnesses(
            self.witness_values(),
        ).with_constraints(Seq::new(self.a@.len(), |r: int| self.row_constraint(vars, r)))
    }

    /// The circuit adds neither variables nor constraints.
    pub open spec fn is_trivial(self) -> bool {
        self.t() == 1 && self.s() == 0 && self.n() == 1 && self.a@.len() == 0
    }

    pub fn new(
        a: Matrix<F>,
        b: Matrix<F>,
        c: Matrix<F>,
        assignment: Vec<F>,
        index_info: R1CSfIndex,
    ) -> (r: Self)
        ensures
            r.a == a,
            r.b == b,
            r.c == c,
            r.assignment == assignment,
            r.index_info == index_info,
    {
        Self { a, b, c, assignment, index_info }
    }
}

/// The combination of the entries of a row, whose columns stand for the given variables.
fn row_combination<F: FieldElement, S: ConstraintSystem<F>>(
    row: &Vec<(F, usize)>,
    vars: &Vec<Variable>,
) -> (lc: S::Combination)
    requires
        forall|k: int| 0 <= k < row@.len() ==> (#[trigger] row@[k]).1 < vars@.len(),
    ensures
        S::form(lc) == row_form(row@, vars@, row@.len()),
{
    let mut lc: S::Combination = S::zero_combination();
    for k in 0..row.len()
        invariant
            forall|k: int| 0 <= k < row@.len() ==> (#[trigger] row@[k]).1 < vars@.len(),
            S::form(lc) == row_form(row@, vars@, k as nat),
    {
        let (coeff, col): (F, usize) = row[k];
        assert(row@[k as int].1 < vars@.len());
        lc = S::add_term(lc, coeff, vars[col]);
    }
    lc
}

/// Adds the columns `from..to` to the system as public inputs, and notes their variables.
fn add_inputs<F: FieldElement, S: ConstraintSystem<F>>(
    assignment: &Vec<F>,
    from: usize,
    to: usize,
    cs: &mut S,
    col_to_var: &mut Vec<Variable>,
) -> (r: Result<(), GenerationError>)
    requires
        from <= to,
        from < to ==> from < assignment@.len(),
        old(col_to_var)@.len() == assignment@.len(),
        old(cs).state().present ==> {
            &&& to <= assignment@.len()
            &&& old(cs).state().has_room(to - from, 0, 0)
        },
    ensures
        final(col_to_var)@.len() == assignment@.len(),
        old(cs).state().present ==> {
            &&& r == Ok::<(), GenerationError>(())
            &&& final(cs).state() == old(cs).state().with_instances(
                values(assignment@).subrange(from as int, to as int),
            )
            &&& forall|j: int|
                0 <= j < assignment@.len() ==> #[trigger] final(col_to_var)@[j] == (if from <= j
                    < to {
                    Variable::Instance((old(cs).state().instance_count + j - from) as usize)
                } else {
                    old(col_to_var)@[j]
                })
        },
        !old(cs).state().present ==> {
            &&& from == to ==> r == Ok::<(), GenerationError>(())
            &&& from < to ==> r == Err::<(), GenerationError>(GenerationError::MissingCS)
            &&& final(cs).state() == old(cs).state()
        },
{
    let ghost start = cs.state();
    let ghost vars = col_to_var@;
    let ghost all = values(assignment@);
    let mut i: usize = from;
    proof {
        if start.present {
            assert(start.instance_values + all.subrange(from as int, i as int) =~= start.instance_values);
            assert(start =~= start.with_instances(all.subrange(from as int, i as int)));
        }
    }
    while i < to
        invariant
            from <= i <= to,
            from < to ==> from < assignment@.len(),
            all == values(assignment@),
            col_to_var@.len() == assignment@.len(),
            start.present ==> to <= assignment@.len() && start.has_room(to - from, 0, 0),
            start.present || i == from,
            start == old(cs).state(),
            start.present ==> cs.state() == start.with_instances(
                all.subrange(from as int, i as int),
            ),
            !start.present ==> cs.state() == start,
            vars == old(col_to_var)@,
            forall|j: int|
                0 <= j < assignment@.len() ==> #[trigger] col_to_var@[j] == (if from <= j < i {
                    Variable::Instance((start.instance_count + j - from) as usize)
                } else {
                    vars[j]
                }),
        decreases to - i,
    {
        let val: F = assignment[i];
        let v: Variable = match cs.new_input_variable(val) {
            Ok(v) => v,
            Err(e) => {
                return Err(e);
            },
        };
        col_to_var.set(i, v);
        proof {
            let done = all.subrange(from as int, i as int);
            assert(done + seq![val.val()] =~= all.subrange(from as int, i + 1));
            assert(start.instance_values + done + seq![val.val()] =~= start.instance_values + (done
                + seq![val.val()]));
        }
        i = i + 1;
    }
    Ok(())
}

/// Adds the columns `from..to` to the system as witnesses, and notes their variables.
fn add_witnesses<F: FieldElement, S: ConstraintSystem<F>>(
    assignment: &Vec<F>,
    from: usize,
    to: usize,
    cs: &mut S,
    col_to_var: &mut Vec<Variable>,
) -> (r: Result<(), GenerationError>)
    requires
        from <= to,
        from < to ==> from < assignment@.len(),
        old(col_to_var)@.len() == assignment@.len(),
        old(cs).state().present ==> {
            &&& to <= assignment@.len()
            &&& old(cs).state().has_room(0, to - from, 0)
        },
    ensures
        final(col_to_var)@.len() == assignment@.len(),
        old(cs).state().present ==> {
            &&& r == Ok::<(), GenerationError>(())
            &&& final(cs).state() == old(cs).state().with_witnesses(
                values(assignment@).subrange(from as int, to as int),
            )
            &&& forall|j: int|
                0 <= j < assignment@.len() ==> #[trigger] final(col_to_var)@[j] == (if from <= j
                    < to {
                    Variable::Witness((old(cs).state().witness_count + j - from) as usize)
                } else {
                    old(col_to_var)@[j]
                })
        },
        !old(cs).state().present ==> {
            &&& from == to ==> r == Ok::<(), GenerationError>(())
            &&& from < to ==> r == Err::<(), GenerationError>(GenerationError::MissingCS)
            &&& final(cs).state() == old(cs).state()
        },
{
    let ghost start = cs.state();
    let ghost vars = col_to_var@;
    let ghost all = values(assignment@);
    let mut i: usize = from;
    proof {
        if start.present {
            assert(start.witness_values + all.subrange(from as int, i as int) =~= start.witness_values);
            assert(start =~= start.with_witnesses(all.subrange(from as int, i as int)));
        }
    }
    while i < to
        invariant
            from <= i <= to,
            from < to ==> from < assignment@.len(),
            all == values(assignment@),
            col_to_var@.len() == assignment@.len(),
            start.present ==> to <= assignment@.len() && start.has_room(0, to - from, 0),
            start.present || i == from,
            start == old(cs).state(),
            start.present ==> cs.state() == start.with_witnesses(
                all.subrange(from as int, i as int),
            ),
            !start.present ==> cs.state() == start,
            vars == old(col_to_var)@,
            forall|j: int|
                0 <= j < assignment@.len() ==> #[trigger] col_to_var@[j] == (if from <= j < i {
                    Variable::Witness((start.witness_count + j - from) as usize)
                } else {
                    vars[j]
                }),
        decreases to - i,
    {
        let val: F = assignment[i];
        let v: Variable = match cs.new_witness_variable(val) {
            Ok(v) => v,
            Err(e) => {
                return Err(e);
            },
        };
        col_to_var.set(i, v);
        proof {
            let done = all.subrange(from as int, i as int);
            assert(done + seq![val.val()] =~= all.subrange(from as int, i + 1));
            assert(start.witness_values + done + seq![val.val()] =~= start.witness_values + (done
                + seq![val.val()]));
        }
        i = i + 1;
    }
    Ok(())
}

impl<F: FieldElement> AcCircuit<F> {
    /// Adds a constraint for each row.
    fn add_rows<S: ConstraintSystem<F>>(&self, cs: &mut S, col_to_var: &Vec<Variable>) -> (r: Result<
        (),
        GenerationError,
    >)
        requires
            col_to_var@.len() == self.n(),
            old(cs).state().present ==> {
                &&& self.rows_fit(self.a@.len() as int)
                &&& old(cs).state().has_room(0, 0, self.a@.len() as int)
            },
            !old(cs).state().present ==> self.a@.len() == 0 || self.rows_fit(1),
        ensures
            old(cs).state().present ==> {
                &&& r == Ok::<(), GenerationError>(())
                &&& final(cs).state() == old(cs).state().with_constraints(
                    Seq::new(self.a@.len(), |r: int| self.row_constraint(col_to_var@, r)),
                )
            },
            !old(cs).state().present ==> {
                &&& self.a@.len() == 0 ==> r == Ok::<(), GenerationError>(())
                &&& self.a@.len() > 0 ==> r == Err::<(), GenerationError>(
                    GenerationError::MissingCS,
                )
                &&& final(cs).state() == old(cs).state()
            },
    {
        let ghost start = cs.state();
        let ghost rows = Seq::new(self.a@.len(), |r: int| self.row_constraint(col_to_var@, r));
        let num_constraints: usize = self.a.len();
        assert(start =~= start.with_constraints(rows.take(0))) by {
            assert(start.constraints + rows.take(0) =~= start.constraints);
        }
        for row in 0..num_constraints
            invariant
                col_to_var@.len() == self.n(),
                num_constraints == self.a@.len(),
                start.present ==> self.rows_fit(self.a@.len() as int),
                !start.present ==> self.a@.len() == 0 || self.rows_fit(1),
                rows == Seq::new(self.a@.len(), |r: int| self.row_constraint(col_to_var@, r)),
                start == old(cs).state(),
                start.present ==> start.has_room(0, 0, self.a@.len() as int),
                start.present || row == 0,
                cs.state() == start.with_constraints(rows.take(row as int)),
                !start.present ==> cs.state() == start,
        {
            let lc_a: S::Combination = row_combination::<F, S>(&self.a[row], col_to_var);
            let lc_b: S::Combination = row_combination::<F, S>(&self.b[row], col_to_var);
            let lc_c: S::Combination = row_combination::<F, S>(&self.c[row], col_to_var);
            match cs.enforce_constraint(lc_a, lc_b, lc_c) {
                Ok(()) => {},
                Err(e) => {
                    return Err(e);
                },
            }
            proof {
                let done = rows.take(row as int);
                assert(done + seq![rows[row as int]] =~= rows.take(row + 1));
                assert(start.constraints + done + seq![rows[row as int]] =~= start.constraints + (
                done + seq![rows[row as int]]));
            }
        }
        proof {
            assert(rows.take(num_constraints as int) =~= rows);
        }
        Ok(())
    }

    /// Adds the circuit to a constraint system: a variable for each column, in the order of the
    /// columns, and a constraint for each row.
    #[verifier::rlimit(30)]
    pub fn generate_constraints<S: ConstraintSystem<F>>(self, cs: &mut S) -> (r: Result<
        (),
        GenerationError,
    >)
        requires
            old(cs).state().present ==> {
                &&& self.well_formed()
                &&& old(cs).state().has_room(
                    self.input_values().len() as int,
                    self.witness_values().len() as int,
                    self.a@.len() as int,
                )
            },
            !old(cs).state().present ==> self.start_fits(),
        ensures
            old(cs).state().present ==> {
                &&& r == Ok::<(), GenerationError>(())
                &&& final(cs).state() == self.synthesized(old(cs).state())
                &&& final(cs).state().constraint_count == old(cs).state().constraint_count
                    + self.a@.len()
                &&& final(cs).state().instance_count == old(cs).state().instance_count + (
                if self.index_info.number_of_input_rows >= 1 {
                    self.index_info.number_of_input_rows - 1
                } else {
                    0
                })
            },
            !old(cs).state().present ==> {
                &&& r is Ok <==> {
                    &&& self.assignment@.len() == 1
                    &&& self.index_info.number_of_input_rows == 1
                    &&& self.index_info.number_of_outputs == 0
                    &&& self.a@.len() == 0
                }
                &&& self.is_trivial() ==> r == Ok::<(), GenerationError>(())
                &&& !self.is_trivial() ==> r == Err::<(), GenerationError>(
                    GenerationError::MissingCS,
                )
                &&& final(cs).state() == old(cs).state()
            },
    {
        let t: usize = self.index_info.number_of_input_rows;
        let s: usize = self.index_info.number_of_outputs;
        let n: usize = self.assignment.len();
        let ghost start = cs.state();
        let ghost all = values(self.assignment@);

        // Map from column to variable, filled as the variables are added.
        let mut col_to_var: Vec<Variable> = Vec::new();
        for i in 0..n
            invariant
                col_to_var@.len() == i,
        {
            col_to_var.push(Variable::Zero);
        }

        // Column 0: the constant one.
        col_to_var.set(0, Variable::One);

        // Columns 1..t: public inputs.
        if t > 1 {
            match add_inputs(&self.assignment, 1, t, cs, &mut col_to_var) {
                Ok(()) => {},
                Err(e) => {
                    return Err(e);
                },
            }
        }
        let ghost after_inputs = cs.state();
        proof {
            if t <= 1 {
                assert(start.instance_values + self.input_values() =~= start.instance_values);
            }
            assert(start.present ==> after_inputs =~= start.with_instances(self.input_values()));
        }

        // Columns t..n-s: internal witnesses.
        if t < n - s {
            match add_witnesses(&self.assignment, t, n - s, cs, &mut col_to_var) {
                Ok(()) => {},
                Err(e) => {
                    return Err(e);
                },
            }
        }
        let ghost after_internal = cs.state();

        // Columns n-s..n: outputs.
        match add_witnesses(&self.assignment, n - s, n, cs, &mut col_to_var) {
            Ok(()) => {},
            Err(e) => {
                return Err(e);
            },
        }
        proof {
            let outputs = all.subrange(n - s, n as int);
            if t < n - s {
                let internal = all.subrange(t as int, n - s);
                assert(after_inputs.witness_values + internal + outputs
                    =~= after_inputs.witness_values + (internal + outputs));
            }
            assert(start.present ==> cs.state() =~= after_inputs.with_witnesses(
                self.witness_values(),
            ));
            assert(start.present ==> col_to_var@ =~= self.column_variables(start));
        }

        let ghost before_rows = cs.state();
        proof {
            assert(start.present ==> before_rows.instance_count == start.instance_count
                + self.input_values().len());
            assert(self.input_values().len() == (if t >= 1 {
                t - 1
            } else {
                0
            }));
        }
        self.add_rows(cs, &col_to_var)
    }
}

} // verus!
