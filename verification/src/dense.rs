//! The dense reading of a sparse row, and the proof that the sparse product
//! is the dense one.

use crate::field::FieldElement;
use crate::utils::{coo_row, is_increasing, is_valid_coo, lemma_coo_row_holds, SparseMatrix};
use vstd::prelude::*;

verus! {

/// The sum over the entries of a row of the entry's value times the vector's
/// value at the entry's column, over the integers.
pub open spec fn sparse_dot<F: FieldElement>(entries: Seq<(usize, F)>, vector: Seq<F>) -> nat
    decreases entries.len(),
{
    if entries.len() == 0 {
        0
    } else {
        sparse_dot(entries.drop_last(), vector) + entries.last().1.value() * vector[entries.last().0 as int].value()
    }
}

/// Some entry of the row lies in column `c`.
pub open spec fn has_column<F: FieldElement>(entries: Seq<(usize, F)>, c: int) -> bool {
    exists|j: int| 0 <= j < entries.len() && (#[trigger] entries[j]).0 == c
}

/// What the row holds in column `c` when it is written out densely: the value
/// of the entry in that column, and zero where there is none.
pub open spec fn dense_entry<F: FieldElement>(entries: Seq<(usize, F)>, c: int) -> nat {
    if has_column(entries, c) {
        let j = choose|j: int| 0 <= j < entries.len() && (#[trigger] entries[j]).0 == c;
        entries[j].1.value()
    } else {
        0
    }
}

/// The sum over the columns `[0, upto)` of the dense row's value times the
/// vector's value, over the integers.
pub open spec fn dense_dot<F: FieldElement>(entries: Seq<(usize, F)>, vector: Seq<F>, upto: int) -> nat
    decreases upto,
{
    if upto <= 0 {
        0
    } else {
        dense_dot(entries, vector, upto - 1) + dense_entry(entries, upto - 1) * vector[upto - 1].value()
    }
}

/// In a row with increasing columns, the dense row holds each entry's value
/// in the entry's column.
pub proof fn lemma_dense_entry_of<F: FieldElement>(entries: Seq<(usize, F)>, j: int)
    requires
        is_increasing(entries),
        0 <= j < entries.len(),
    ensures
        dense_entry(entries, entries[j].0 as int) == entries[j].1.value(),
{
    let c = entries[j].0 as int;
    assert(has_column(entries, c));
    let k = choose|k: int| 0 <= k < entries.len() && (#[trigger] entries[k]).0 == c;
    if k < j {
        assert(entries[k].0 < entries[j].0);
    } else if j < k {
        assert(entries[j].0 < entries[k].0);
    }
}

/// Two rows that agree densely below a column have the same dense sum below it.
proof fn lemma_dense_dot_agree<F: FieldElement>(
    a: Seq<(usize, F)>,
    b: Seq<(usize, F)>,
    vector: Seq<F>,
    upto: int,
)
    requires
        forall|c: int| 0 <= c < upto ==> dense_entry(a, c) == dense_entry(b, c),
    ensures
        dense_dot(a, vector, upto) == dense_dot(b, vector, upto),
    decreases upto,
{
    if upto > 0 {
        lemma_dense_dot_agree(a, b, vector, upto - 1);
    }
}

/// Columns in which the dense row is zero add nothing to the dense sum.
proof fn lemma_dense_dot_zero_tail<F: FieldElement>(
    entries: Seq<(usize, F)>,
    vector: Seq<F>,
    from: int,
    upto: int,
)
    requires
        0 <= from <= upto,
        forall|c: int| from <= c < upto ==> dense_entry(entries, c) == 0,
    ensures
        dense_dot(entries, vector, upto) == dense_dot(entries, vector, from),
    decreases upto - from,
{
    if from < upto {
        lemma_dense_dot_zero_tail(entries, vector, from, upto - 1);
        assert(dense_entry(entries, upto - 1) == 0);
        assert(dense_entry(entries, upto - 1) * vector[upto - 1].value() == 0) by (nonlinear_arith)
            requires
                dense_entry(entries, upto - 1) == 0,
        ;
    }
}

/// The sum over the entries of a row with increasing columns is the sum over
/// all columns of the row written out densely.
pub proof fn lemma_sparse_dot_is_dense<F: FieldElement>(
    entries: Seq<(usize, F)>,
    vector: Seq<F>,
    cols: int,
)
    requires
        is_increasing(entries),
        0 <= cols,
        forall|j: int| 0 <= j < entries.len() ==> (#[trigger] entries[j]).0 < cols,
    ensures
        sparse_dot(entries, vector) == dense_dot(entries, vector, cols),
    decreases entries.len(),
{
    if entries.len() == 0 {
        assert forall|c: int| 0 <= c < cols implies dense_entry(entries, c) == 0 by {
            assert(!has_column(entries, c));
        }
        lemma_dense_dot_zero_tail(entries, vector, 0, cols);
    } else {
        let head = entries.drop_last();
        let last = entries.last();
        let c = last.0 as int;
        assert(entries[entries.len() - 1].0 < cols);
        assert(is_increasing(head)) by {
            assert forall|a: int, b: int| 0 <= a < b < head.len() implies head[a].0 < head[b].0 by {
                assert(head[a] == entries[a] && head[b] == entries[b]);
            }
        }
        assert forall|j: int| 0 <= j < head.len() implies (#[trigger] head[j]).0 < c by {
            assert(head[j] == entries[j]);
            assert(entries[j].0 < entries[entries.len() - 1].0);
        }
        lemma_sparse_dot_is_dense(head, vector, c);
        // below the last column the row and its head agree
        assert forall|d: int| 0 <= d < c implies dense_entry(entries, d) == dense_entry(head, d) by {
            if has_column(head, d) {
                let j = choose|j: int| 0 <= j < head.len() && (#[trigger] head[j]).0 == d;
                assert(head[j] == entries[j]);
                lemma_dense_entry_of(head, j);
                lemma_dense_entry_of(entries, j);
            } else {
                if has_column(entries, d) {
                    let j = choose|j: int| 0 <= j < entries.len() && (#[trigger] entries[j]).0 == d;
                    assert(j < head.len());
                    assert(head[j] == entries[j]);
                    assert(has_column(head, d));
                }
            }
        }
        lemma_dense_dot_agree(entries, head, vector, c);
        // in the last column stands the last entry
        lemma_dense_entry_of(entries, entries.len() - 1);
        // beyond the last column the row is zero
        assert forall|d: int| c + 1 <= d < cols implies dense_entry(entries, d) == 0 by {
            if has_column(entries, d) {
                let j = choose|j: int| 0 <= j < entries.len() && (#[trigger] entries[j]).0 == d;
                if j < entries.len() - 1 {
                    assert(entries[j].0 < entries[entries.len() - 1].0);
                }
            }
        }
        lemma_dense_dot_zero_tail(entries, vector, c + 1, cols);
    }
}

/// The sum over a span of entries of a matrix is the sum over the same
/// entries taken as a row.
pub proof fn lemma_span_dot_is_sparse_dot<F: FieldElement>(
    m: SparseMatrix<F>,
    vector: Seq<F>,
    lo: int,
    hi: int,
)
    requires
        0 <= lo <= hi <= m.data@.len(),
        m.data@.len() == m.indices@.len(),
    ensures
        m.span_dot(vector, lo, hi) == sparse_dot(
            Seq::new((hi - lo) as nat, |j: int| (m.indices@[lo + j], m.data@[lo + j])),
            vector,
        ),
    decreases hi - lo,
{
    let entries = Seq::new((hi - lo) as nat, |j: int| (m.indices@[lo + j], m.data@[lo + j]));
    if lo < hi {
        lemma_span_dot_is_sparse_dot(m, vector, lo, hi - 1);
        let shorter = Seq::new((hi - 1 - lo) as nat, |j: int| (m.indices@[lo + j], m.data@[lo + j]));
        assert(entries.drop_last() =~= shorter);
        assert(entries.last() == (m.indices@[hi - 1], m.data@[hi - 1]));
    }
}

/// The product of a matrix with a vector is the product of the matrix written
/// out densely: entry `r` stands for the sum, over all columns, of what row
/// `r` holds in the column times the vector's value there, reduced modulo the
/// order of the field.
pub proof fn lemma_product_is_dense<F: FieldElement>(
    m: SparseMatrix<F>,
    vector: Seq<F>,
    out: Seq<F>,
    r: int,
)
    requires
        m.wf(),
        m.fits_columns(),
        vector.len() == m.cols,
        m.is_product(vector, out),
        0 <= r < m.rows(),
    ensures
        out[r].value() == dense_dot(m.row(r), vector, m.cols as int) % F::modulus(),
{
    let lo = m.indptr@[r] as int;
    let hi = m.indptr@[r + 1] as int;
    assert(m.indptr@[r] <= m.indptr@[r + 1]);
    assert(m.indptr@[r + 1] <= m.indptr@[m.rows()]);
    lemma_span_dot_is_sparse_dot(m, vector, lo, hi);
    let entries = m.row(r);
    assert(entries =~= Seq::new((hi - lo) as nat, |j: int| (m.indices@[lo + j], m.data@[lo + j])));
    assert(is_increasing(entries)) by {
        assert forall|a: int, b: int| 0 <= a < b < entries.len() implies entries[a].0 < entries[b].0 by {
            assert(m.in_row(r, lo + a) && m.in_row(r, lo + b));
        }
    }
    lemma_sparse_dot_is_dense(entries, vector, m.cols as int);
}

/// Some entry of the coordinate list lies at the place `(row, col)`.
pub open spec fn list_has<F: FieldElement>(matrix: Seq<(usize, usize, F)>, row: int, col: int) -> bool {
    exists|i: int| 0 <= i < matrix.len() && (#[trigger] matrix[i]).0 == row && matrix[i].1 == col
}

/// What the matrix of a coordinate list holds at the place `(row, col)` when
/// it is written out densely: the value of the entry at that place, and zero
/// where the list has none.
pub open spec fn list_entry<F: FieldElement>(matrix: Seq<(usize, usize, F)>, row: int, col: int) -> nat {
    if list_has(matrix, row, col) {
        matrix[list_index(matrix, row, col)].2.value()
    } else {
        0
    }
}

/// The place in the list of an entry at `(row, col)`, where there is one.
pub open spec fn list_index<F: FieldElement>(matrix: Seq<(usize, usize, F)>, row: int, col: int) -> int {
    choose|i: int| 0 <= i < matrix.len() && (#[trigger] matrix[i]).0 == row && matrix[i].1 == col
}

/// Entry `row` of the dense product of a coordinate list with a vector, over
/// the integers: the sum over the columns `[0, upto)` of what the list holds
/// at `(row, column)` times the vector's value.
pub open spec fn list_dot<F: FieldElement>(
    matrix: Seq<(usize, usize, F)>,
    vector: Seq<F>,
    row: int,
    upto: int,
) -> nat
    decreases upto,
{
    if upto <= 0 {
        0
    } else {
        list_dot(matrix, vector, row, upto - 1) + list_entry(matrix, row, upto - 1) * vector[upto
            - 1].value()
    }
}

/// An entry of a row comes from an entry of the list that names the row.
proof fn lemma_coo_row_from<F>(matrix: Seq<(usize, usize, F)>, row: int, j: int)
    requires
        0 <= j < coo_row(matrix, row).len(),
    ensures
        exists|i: int|
            0 <= i < matrix.len() && (#[trigger] matrix[i]).0 == row && coo_row(matrix, row)[j] == (
                matrix[i].1,
                matrix[i].2,
            ),
    decreases matrix.len(),
{
    let head = matrix.drop_last();
    if j < coo_row(head, row).len() {
        lemma_coo_row_from(head, row, j);
        let i = choose|i: int|
            0 <= i < head.len() && (#[trigger] head[i]).0 == row && coo_row(head, row)[j] == (
                head[i].1,
                head[i].2,
            );
        assert(matrix[i] == head[i]);
    } else {
        let i = matrix.len() - 1;
        assert(matrix[i].0 == row);
    }
}

/// The rows of a valid coordinate list, written out densely, hold what the
/// list holds.
pub proof fn lemma_dense_entry_is_list_entry<F: FieldElement>(
    matrix: Seq<(usize, usize, F)>,
    rows: int,
    row: int,
    col: int,
)
    requires
        is_valid_coo(matrix, rows),
        0 <= row < rows,
    ensures
        dense_entry(coo_row(matrix, row), col) == list_entry(matrix, row, col),
{
    let entries = coo_row(matrix, row);
    assert(is_increasing(entries));
    if list_has(matrix, row, col) {
        let i = list_index(matrix, row, col);
        lemma_coo_row_holds(matrix, row, i);
        let j = choose|j: int|
            0 <= j < entries.len() && #[trigger] entries[j] == (matrix[i].1, matrix[i].2);
        lemma_dense_entry_of(entries, j);
        assert(entries[j].0 == col);
    } else {
        if has_column(entries, col) {
            let j = choose|j: int| 0 <= j < entries.len() && (#[trigger] entries[j]).0 == col;
            lemma_coo_row_from(matrix, row, j);
            let i = choose|i: int|
                0 <= i < matrix.len() && (#[trigger] matrix[i]).0 == row && entries[j] == (
                    matrix[i].1,
                    matrix[i].2,
                );
            assert(matrix[i].1 == col);
            assert(list_has(matrix, row, col));
        }
    }
}

/// The dense sum of a row of a valid coordinate list is the dense sum of the list.
proof fn lemma_dense_dot_is_list_dot<F: FieldElement>(
    matrix: Seq<(usize, usize, F)>,
    rows: int,
    vector: Seq<F>,
    row: int,
    upto: int,
)
    requires
        is_valid_coo(matrix, rows),
        0 <= row < rows,
    ensures
        dense_dot(coo_row(matrix, row), vector, upto) == list_dot(matrix, vector, row, upto),
    decreases upto,
{
    if upto > 0 {
        lemma_dense_dot_is_list_dot(matrix, rows, vector, row, upto - 1);
        lemma_dense_entry_is_list_entry(matrix, rows, row, upto - 1);
    }
}

/// The product of a vector with the matrix built from a valid coordinate
/// list that stays inside the columns is the product with the same matrix
/// written out densely: entry `row`
/// stands for the sum, over all columns, of what the list holds at
/// `(row, column)` times the vector's value there, reduced modulo the order
/// of the field.
pub proof fn lemma_product_of_list_is_dense<F: FieldElement>(
    matrix: Seq<(usize, usize, F)>,
    m: SparseMatrix<F>,
    vector: Seq<F>,
    out: Seq<F>,
    row: int,
)
    requires
        is_valid_coo(matrix, m.rows()),
        m.wf(),
        m.fits_columns(),
        forall|r: int| 0 <= r < m.rows() ==> #[trigger] m.row(r) == coo_row(matrix, r),
        vector.len() == m.cols,
        m.is_product(vector, out),
        0 <= row < m.rows(),
    ensures
        out[row].value() == list_dot(matrix, vector, row, m.cols as int) % F::modulus(),
{
    lemma_product_is_dense(m, vector, out, row);
    assert(m.row(row) == coo_row(matrix, row));
    lemma_dense_dot_is_list_dot(matrix, m.rows(), vector, row, m.cols as int);
}

} // verus!
