//! The order of the entries of a matrix that was built from a coordinate
//! list: where the list comes sorted by row, the matrix holds its entries in
//! the order of the list.

use crate::field::FieldElement;
use crate::utils::{coo_row, is_valid_coo, SparseMatrix};
use vstd::prelude::*;

verus! {

/// The rows of the entries never decrease along the list.
pub open spec fn is_sorted_by_row<F>(matrix: Seq<(usize, usize, F)>) -> bool {
    forall|i: int, j: int| 0 <= i <= j < matrix.len() ==> matrix[i].0 <= matrix[j].0
}

/// The number of entries of the list that lie in rows below `row`.
pub open spec fn count_below<F>(matrix: Seq<(usize, usize, F)>, row: int) -> nat
    decreases matrix.len(),
{
    if matrix.len() == 0 {
        0
    } else {
        count_below(matrix.drop_last(), row) + if matrix.last().0 < row {
            1nat
        } else {
            0nat
        }
    }
}

/// A row has as many entries as lie below the next row and not below it.
proof fn lemma_row_len<F>(matrix: Seq<(usize, usize, F)>, row: int)
    ensures
        count_below(matrix, row) <= count_below(matrix, row + 1),
        coo_row(matrix, row).len() == count_below(matrix, row + 1) - count_below(matrix, row),
    decreases matrix.len(),
{
    if matrix.len() > 0 {
        lemma_row_len(matrix.drop_last(), row);
    }
}

/// Where all entries lie below a row, all entries are counted; and no entry
/// lies below row zero.
proof fn lemma_count_all<F>(matrix: Seq<(usize, usize, F)>, row: int)
    ensures
        count_below(matrix, 0) == 0,
        count_below(matrix, row) <= matrix.len(),
        (forall|i: int| 0 <= i < matrix.len() ==> (#[trigger] matrix[i]).0 < row) ==> count_below(
            matrix,
            row,
        ) == matrix.len(),
    decreases matrix.len(),
{
    if matrix.len() > 0 {
        let head = matrix.drop_last();
        lemma_count_all(head, row);
        if forall|i: int| 0 <= i < matrix.len() ==> (#[trigger] matrix[i]).0 < row {
            assert forall|i: int| 0 <= i < head.len() implies (#[trigger] head[i]).0 < row by {
                assert(head[i] == matrix[i]);
            }
            assert(matrix[matrix.len() - 1].0 < row);
        }
    }
}

/// In a list sorted by row, entry `k` stands in its row at the place that is
/// left when the entries of the rows below are taken off.
proof fn lemma_sorted_place<F>(matrix: Seq<(usize, usize, F)>, k: int)
    requires
        is_sorted_by_row(matrix),
        0 <= k < matrix.len(),
    ensures
        0 <= k - count_below(matrix, matrix[k].0 as int) < coo_row(matrix, matrix[k].0 as int).len(),
        coo_row(matrix, matrix[k].0 as int)[k - count_below(matrix, matrix[k].0 as int)] == (
            matrix[k].1,
            matrix[k].2,
        ),
    decreases matrix.len(),
{
    let head = matrix.drop_last();
    let last = matrix.last();
    let row = matrix[k].0 as int;
    assert(matrix[k].0 <= matrix[matrix.len() - 1].0);
    assert forall|i: int, j: int| 0 <= i <= j < head.len() implies head[i].0 <= head[j].0 by {
        assert(head[i] == matrix[i] && head[j] == matrix[j]);
    }
    if k < head.len() {
        assert(head[k] == matrix[k]);
        lemma_sorted_place(head, k);
    } else {
        assert forall|i: int| 0 <= i < head.len() implies (#[trigger] head[i]).0 < row + 1 by {
            assert(head[i] == matrix[i]);
            assert(matrix[i].0 <= matrix[k].0);
        }
        lemma_count_all(head, row + 1);
        lemma_row_len(head, row);
    }
}

/// The row offsets of the matrix count the entries of the list below each row.
proof fn lemma_offsets_count<F: FieldElement>(
    matrix: Seq<(usize, usize, F)>,
    m: SparseMatrix<F>,
    r: int,
)
    requires
        m.is_csr(),
        forall|t: int| 0 <= t < m.rows() ==> #[trigger] m.row(t) == coo_row(matrix, t),
        0 <= r <= m.rows(),
    ensures
        m.indptr@[r] == count_below(matrix, r),
    decreases r,
{
    if r == 0 {
        lemma_count_all(matrix, 0);
    } else {
        lemma_offsets_count(matrix, m, r - 1);
        lemma_row_len(matrix, r - 1);
        assert(m.indptr@[r - 1] <= m.indptr@[r]);
        assert(m.row(r - 1) == coo_row(matrix, r - 1));
        assert(m.row(r - 1).len() == m.indptr@[r] - m.indptr@[r - 1]);
    }
}

/// The matrix built from a coordinate list has one entry for each entry of the list.
pub proof fn lemma_entry_count<F: FieldElement>(matrix: Seq<(usize, usize, F)>, m: SparseMatrix<F>)
    requires
        forall|i: int| 0 <= i < matrix.len() ==> (#[trigger] matrix[i]).0 < m.rows(),
        m.is_csr(),
        forall|t: int| 0 <= t < m.rows() ==> #[trigger] m.row(t) == coo_row(matrix, t),
    ensures
        m.nnz() == matrix.len(),
{
    lemma_offsets_count(matrix, m, m.rows());
    lemma_count_all(matrix, m.rows());
}

/// The matrix built from a valid coordinate list that is sorted by row holds
/// the entries of the list, in the order of the list.
pub proof fn lemma_triples_of_sorted_list<F: FieldElement>(
    matrix: Seq<(usize, usize, F)>,
    m: SparseMatrix<F>,
)
    requires
        is_valid_coo(matrix, m.rows()),
        is_sorted_by_row(matrix),
        m.is_csr(),
        forall|t: int| 0 <= t < m.rows() ==> #[trigger] m.row(t) == coo_row(matrix, t),
    ensures
        m.triples() == matrix,
{
    lemma_entry_count(matrix, m);
    assert forall|k: int| 0 <= k < matrix.len() implies m.triples()[k] == matrix[k] by {
        let r = matrix[k].0 as int;
        assert(0 <= r < m.rows());
        lemma_sorted_place(matrix, k);
        lemma_offsets_count(matrix, m, r);
        lemma_offsets_count(matrix, m, r + 1);
        lemma_row_len(matrix, r);
        let j = k - m.indptr@[r];
        assert(m.row(r) == coo_row(matrix, r));
        assert(m.in_row(r, k));
        m.lemma_row_of(r, k);
        assert(m.row(r)[j] == (m.indices@[m.indptr@[r] + j], m.data@[m.indptr@[r] + j]));
    }
    assert(m.triples() =~= matrix);
}

} // verus!
