//! The size of the matrices of a compiled circuit.

use vstd::prelude::*;

use crate::ac_bridge::{Matrix, R1CSfIndex};

verus! {

/// The dimensions of the three matrices, and how many entries each lists.
#[derive(Clone, Copy, Debug, PartialEq, Eq)]
pub struct R1csInfo {
    pub rows: usize,
    pub cols: usize,
    /// The number of places in each matrix.
    pub total: usize,
    pub nnz_a: usize,
    pub nnz_b: usize,
    pub nnz_c: usize,
}

/// The number of entries that the first `k` rows of a matrix list.
pub open spec fn entry_count<F>(m: Matrix<F>, k: nat) -> nat
    decreases k,
{
    if k == 0 {
        0
    } else {
        entry_count(m, (k - 1) as nat) + m@[k - 1]@.len()
    }
}

/// Each row adds its own length to the count, and nothing else does.
pub proof fn lemma_entries_per_row<F>(m: Matrix<F>)
    ensures
        entry_count(m, 0) == 0,
        forall|k: int|
            0 <= k < m@.len() ==> #[trigger] entry_count(m, (k + 1) as nat) - entry_count(m, k as nat)
                == m@[k]@.len(),
{
}

/// The count over all rows is the sum of the lengths of the rows.
pub proof fn lemma_entries_total<F>(m: Matrix<F>)
    ensures
        entry_count(m, m@.len()) == m@.fold_left(
            0int,
            |sum: int, row: Vec<(F, usize)>| sum + row@.len(),
        ),
{
    lemma_entries_of_prefix(m, m@.len());
    assert(m@.take(m@.len() as int) =~= m@);
}

proof fn lemma_entries_of_prefix<F>(m: Matrix<F>, k: nat)
    requires
        k <= m@.len(),
    ensures
        entry_count(m, k) == m@.take(k as int).fold_left(
            0int,
            |sum: int, row: Vec<(F, usize)>| sum + row@.len(),
        ),
    decreases k,
{
    if k > 0 {
        lemma_entries_of_prefix(m, (k - 1) as nat);
        assert(m@.take(k as int).drop_last() =~= m@.take(k - 1));
    }
}

/// A matrix whose rows are those of `a` and then those of `b` lists the entries of both.
pub proof fn lemma_entries_add_up<F>(a: Matrix<F>, b: Matrix<F>, m: Matrix<F>)
    requires
        m@ == a@ + b@,
    ensures
        entry_count(m, m@.len()) == entry_count(a, a@.len()) + entry_count(b, b@.len()),
{
    lemma_same_rows(a, m, 0, a@.len());
    lemma_same_rows(b, m, a@.len(), b@.len());
}

proof fn lemma_same_rows<F>(a: Matrix<F>, m: Matrix<F>, from: nat, k: nat)
    requires
        k <= a@.len(),
        from + k <= m@.len(),
        forall|i: int| 0 <= i < k ==> #[trigger] m@[from + i] == a@[i],
    ensures
        entry_count(m, from + k) == entry_count(m, from) + entry_count(a, k),
    decreases k,
{
    if k > 0 {
        lemma_same_rows(a, m, from, (k - 1) as nat);
        assert(m@[from + (k - 1)] == a@[k - 1]);
    }
}

proof fn lemma_entry_count_grows<F>(m: Matrix<F>, j: nat, k: nat)
    requires
        j <= k,
    ensures
        entry_count(m, j) <= entry_count(m, k),
    decreases k,
{
    if j < k {
        lemma_entry_count_grows(m, j, (k - 1) as nat);
    }
}

/// Counts the entries that a matrix lists.
pub fn non_zero_entries<F>(m: &Matrix<F>) -> (r: usize)
    requires
        entry_count(*m, m@.len()) <= usize::MAX,
    ensures
        r == entry_count(*m, m@.len()),
        r == m@.fold_left(0int, |sum: int, row: Vec<(F, usize)>| sum + row@.len()),
{
    let mut count: usize = 0;
    for k in 0..m.len()
        invariant
            entry_count(*m, m@.len()) <= usize::MAX,
            count == entry_count(*m, k as nat),
    {
        proof {
            lemma_entry_count_grows(*m, (k + 1) as nat, m@.len());
        }
        count = count + m[k].len();
    }
    proof {
        lemma_entries_total(*m);
    }
    count
}

/// Measures the matrices of a compiled circuit.
pub fn r1cs_info<F>(
    index_info: &R1CSfIndex,
    a: &Matrix<F>,
    b: &Matrix<F>,
    c: &Matrix<F>,
    assignment: &Vec<F>,
) -> (r: R1csInfo)
    requires
        index_info.number_of_constraints * assignment@.len() <= usize::MAX,
        entry_count(*a, a@.len()) <= usize::MAX,
        entry_count(*b, b@.len()) <= usize::MAX,
        entry_count(*c, c@.len()) <= usize::MAX,
    ensures
        r.rows == index_info.number_of_constraints,
        r.cols == assignment@.len(),
        r.total == r.rows * r.cols,
        r.nnz_a == entry_count(*a, a@.len()),
        r.nnz_b == entry_count(*b, b@.len()),
        r.nnz_c == entry_count(*c, c@.len()),
        r.nnz_a == a@.fold_left(0int, |sum: int, row: Vec<(F, usize)>| sum + row@.len()),
        r.nnz_b == b@.fold_left(0int, |sum: int, row: Vec<(F, usize)>| sum + row@.len()),
        r.nnz_c == c@.fold_left(0int, |sum: int, row: Vec<(F, usize)>| sum + row@.len()),
{
    let rows: usize = index_info.number_of_constraints;
    let cols: usize = assignment.len();
    R1csInfo {
        rows,
        cols,
        total: rows * cols,
        nnz_a: non_zero_entries(a),
        nnz_b: non_zero_entries(b),
        nnz_c: non_zero_entries(c),
    }
}

} // verus!
