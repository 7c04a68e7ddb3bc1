//! Sparse matrices in compressed-row form and the generators of benchmark
//! workloads: random curve points, random scalars and skewed scalar mixes.

use crate::curve::{
    batch_normalize, curve_add, curve_mul, hash_to_curve, hash_to_curve_point, is_affine_form_of,
    point_add, point_mul, Affine, Point,
};
use crate::error::Error;
use crate::field::{fq_modulus, FieldElement, Fq};
use crate::order::{is_sorted_by_row, lemma_entry_count, lemma_triples_of_sorted_list};
use crate::parallel::par_map_range;
use crate::rng::{random_bytes, random_scalar, rng_from_entropy, shuffle};
use rand_chacha::ChaCha20Rng;
use vstd::prelude::*;
use vstd::slice::slice_subrange;

verus! {

/// The entries that a coordinate list gives for row `row`, each a column
/// and a value, in the order of the list.
pub open spec fn coo_row<F>(matrix: Seq<(usize, usize, F)>, row: int) -> Seq<(usize, F)>
    decreases matrix.len(),
{
    if matrix.len() == 0 {
        Seq::empty()
    } else {
        let head = coo_row(matrix.drop_last(), row);
        let last = matrix.last();
        if last.0 == row {
            head.push((last.1, last.2))
        } else {
            head
        }
    }
}

/// The columns of the entries strictly increase.
pub open spec fn is_increasing<F>(entries: Seq<(usize, F)>) -> bool {
    forall|a: int, b: int| 0 <= a < b < entries.len() ==> entries[a].0 < entries[b].0
}

/// The coordinate list describes a matrix with `rows` rows: every entry
/// names one of them, and the entries of each row come with strictly
/// increasing columns.
pub open spec fn is_valid_coo<F>(matrix: Seq<(usize, usize, F)>, rows: int) -> bool {
    &&& forall|i: int| 0 <= i < matrix.len() ==> (#[trigger] matrix[i]).0 < rows
    &&& forall|row: int| 0 <= row < rows ==> is_increasing(#[trigger] coo_row(matrix, row))
}

/// Every entry of the coordinate list lies in one of the first `cols` columns.
pub open spec fn coo_fits_columns<F>(matrix: Seq<(usize, usize, F)>, cols: int) -> bool {
    forall|i: int| 0 <= i < matrix.len() ==> (#[trigger] matrix[i]).1 < cols
}

/// Every entry of every row lies in one of the first `cols` columns.
pub open spec fn rows_fit_columns<F>(groups: Seq<Vec<(usize, F)>>, cols: int) -> bool {
    forall|row: int, j: int|
        0 <= row < groups.len() && 0 <= j < groups[row]@.len() ==> (#[trigger] groups[row]@[j]).0
            < cols
}

/// The entries of a row lie in columns that the list names.
pub proof fn lemma_coo_row_bounded<F>(matrix: Seq<(usize, usize, F)>, row: int, cols: int)
    requires
        coo_fits_columns(matrix, cols),
    ensures
        forall|j: int|
            0 <= j < coo_row(matrix, row).len() ==> (#[trigger] coo_row(matrix, row)[j]).0 < cols,
    decreases matrix.len(),
{
    if matrix.len() > 0 {
        let head = matrix.drop_last();
        assert forall|i: int| 0 <= i < head.len() implies (#[trigger] head[i]).1 < cols by {
            assert(head[i] == matrix[i]);
        }
        lemma_coo_row_bounded(head, row, cols);
        assert(matrix[matrix.len() - 1].1 < cols);
        let all = coo_row(matrix, row);
        assert forall|j: int| 0 <= j < all.len() implies (#[trigger] all[j]).0 < cols by {
            if j < coo_row(head, row).len() {
                assert(all[j] == coo_row(head, row)[j]);
            }
        }
    }
}

/// The entries that a shorter list gives for a row are the first entries
/// that the whole list gives for it.
pub proof fn lemma_coo_row_prefix<F>(matrix: Seq<(usize, usize, F)>, row: int, i: int)
    requires
        0 <= i <= matrix.len(),
    ensures
        coo_row(matrix.take(i), row).len() <= coo_row(matrix, row).len(),
        forall|j: int|
            0 <= j < coo_row(matrix.take(i), row).len() ==> coo_row(matrix.take(i), row)[j]
                == coo_row(matrix, row)[j],
    decreases matrix.len(),
{
    if i == matrix.len() {
        assert(matrix.take(i) == matrix);
    } else {
        let head = matrix.drop_last();
        assert(head.take(i) == matrix.take(i));
        lemma_coo_row_prefix(head, row, i);
    }
}

/// An entry of the list stands in the row it names, behind the entries that
/// come before it in the list.
pub proof fn lemma_coo_row_holds<F>(matrix: Seq<(usize, usize, F)>, row: int, i: int)
    requires
        0 <= i < matrix.len(),
        matrix[i].0 == row,
    ensures
        exists|j: int|
            0 <= j < coo_row(matrix, row).len() && #[trigger] coo_row(matrix, row)[j] == (
                matrix[i].1,
                matrix[i].2,
            ),
{
    let upto = matrix.take(i + 1);
    assert(upto.drop_last() == matrix.take(i));
    assert(upto.last() == matrix[i]);
    let p = coo_row(matrix.take(i), row).len() as int;
    assert(coo_row(upto, row)[p] == (matrix[i].1, matrix[i].2));
    lemma_coo_row_prefix(matrix, row, i + 1);
    assert(coo_row(matrix, row)[p] == (matrix[i].1, matrix[i].2));
}

/// For a list whose entries name rows of the matrix and the rows it was
/// sorted into: the list is valid exactly if every row increases, and the
/// rows stay inside the first `cols` columns exactly if the list does.
proof fn lemma_grouped_validity<F>(
    matrix: Seq<(usize, usize, F)>,
    groups: Seq<Vec<(usize, F)>>,
    rows: int,
    cols: int,
)
    requires
        groups.len() == rows,
        forall|i: int| 0 <= i < matrix.len() ==> (#[trigger] matrix[i]).0 < rows,
        forall|row: int| 0 <= row < rows ==> (#[trigger] groups[row])@ == coo_row(matrix, row),
    ensures
        is_valid_coo(matrix, rows) <==> (forall|row: int|
            0 <= row < groups.len() ==> is_increasing(#[trigger] groups[row]@)),
        rows_fit_columns(groups, cols) <==> coo_fits_columns(matrix, cols),
{
    if coo_fits_columns(matrix, cols) {
        assert forall|row: int, j: int|
            0 <= row < groups.len() && 0 <= j < groups[row]@.len() implies (
        #[trigger] groups[row]@[j]).0 < cols by {
            lemma_coo_row_bounded(matrix, row, cols);
            assert(groups[row]@ == coo_row(matrix, row));
        }
    }
    if rows_fit_columns(groups, cols) {
        assert forall|i: int| 0 <= i < matrix.len() implies (#[trigger] matrix[i]).1 < cols by {
            let row = matrix[i].0 as int;
            lemma_coo_row_holds(matrix, row, i);
            let j = choose|j: int|
                0 <= j < coo_row(matrix, row).len() && #[trigger] coo_row(matrix, row)[j] == (
                    matrix[i].1,
                    matrix[i].2,
                );
            assert(groups[row]@ == coo_row(matrix, row));
            assert(groups[row]@[j].0 < cols);
        }
    }
    if is_valid_coo(matrix, rows) {
        assert forall|row: int| 0 <= row < groups.len() implies is_increasing(
            #[trigger] groups[row]@,
        ) by {
            assert(is_increasing(coo_row(matrix, row)));
        }
    }
    if forall|row: int| 0 <= row < groups.len() ==> is_increasing(#[trigger] groups[row]@) {
        assert forall|row: int| 0 <= row < rows implies is_increasing(
            #[trigger] coo_row(matrix, row),
        ) by {
            assert(is_increasing(groups[row]@));
        }
    }
}

/// Sorts the entries of a coordinate list into their rows, each row keeping
/// the order of the list; `None` where an entry names no row of the matrix.
fn group_rows<F: Copy>(matrix: &[(usize, usize, F)], rows: usize) -> (r: Option<Vec<Vec<(usize, F)>>>)
    ensures
        r is Some <==> forall|i: int| 0 <= i < matrix@.len() ==> (#[trigger] matrix@[i]).0 < rows,
        r matches Some(groups) ==> groups.len() == rows && forall|row: int|
            0 <= row < rows ==> (#[trigger] groups[row])@ == coo_row(matrix@, row),
{
    let mut groups: Vec<Vec<(usize, F)>> = Vec::new();
    let mut r: usize = 0;
    while r < rows
        invariant
            r <= rows,
            groups.len() == r,
            forall|t: int| 0 <= t < r ==> (#[trigger] groups[t])@.len() == 0,
        decreases rows - r,
    {
        groups.push(Vec::new());
        r += 1;
    }
    let mut i: usize = 0;
    while i < matrix.len()
        invariant
            i <= matrix.len(),
            groups.len() == rows,
            forall|t: int| 0 <= t < i ==> (#[trigger] matrix@[t]).0 < rows,
            forall|row: int|
                0 <= row < rows ==> (#[trigger] groups[row])@ == coo_row(matrix@.take(i as int), row),
        decreases matrix.len() - i,
    {
        let (row, col, val) = matrix[i];
        if row >= rows {
            return None;
        }
        let ghost before = groups@;
        groups[row].push((col, val));
        proof {
            let next = matrix@.take(i + 1);
            assert(next.drop_last() == matrix@.take(i as int));
            assert(next.last() == matrix@[i as int]);
            assert forall|t: int| 0 <= t < rows implies (#[trigger] groups[t])@ == coo_row(next, t) by {
                if t != row {
                    assert(groups[t] == before[t]);
                }
            }
        }
        i += 1;
    }
    proof {
        assert(matrix@.take(matrix@.len() as int) == matrix@);
    }
    Some(groups)
}

/// Whether the columns strictly increase inside every row.
fn rows_increase<F: Copy>(groups: &Vec<Vec<(usize, F)>>) -> (b: bool)
    ensures
        b == forall|row: int| 0 <= row < groups.len() ==> is_increasing(#[trigger] groups[row]@),
{
    let mut r: usize = 0;
    while r < groups.len()
        invariant
            r <= groups.len(),
            forall|t: int| 0 <= t < r ==> is_increasing(#[trigger] groups[t]@),
        decreases groups.len() - r,
    {
        let row = &groups[r];
        let mut j: usize = 1;
        while j < row.len()
            invariant
                1 <= j,
                r < groups.len(),
                row@ == groups[r as int]@,
                forall|a: int, b: int| 0 <= a < b < j && b < row@.len() ==> row@[a].0 < row@[b].0,
            decreases row.len() - j,
        {
            if row[j - 1].0 >= row[j].0 {
                proof {
                    assert(!is_increasing(groups[r as int]@));
                }
                return false;
            }
            proof {
                assert forall|a: int, b: int| 0 <= a < b < j + 1 && b < row@.len() implies row@[a].0
                    < row@[b].0 by {
                    if b == j && a < j - 1 {
                        assert(row@[a].0 < row@[j - 1].0);
                    }
                }
            }
            j += 1;
        }
        r += 1;
    }
    true
}

/// The rows of a coordinate list, where the list is valid.
fn valid_rows<F: Copy>(matrix: &[(usize, usize, F)], rows: usize, cols: usize) -> (r: Option<
    Vec<Vec<(usize, F)>>,
>)
    ensures
        r is Some <==> is_valid_coo(matrix@, rows as int),
        r matches Some(groups) ==> {
            &&& groups.len() == rows
            &&& forall|row: int| 0 <= row < rows ==> (#[trigger] groups[row])@ == coo_row(matrix@, row)
            &&& forall|row: int| 0 <= row < rows ==> is_increasing(#[trigger] groups[row]@)
            &&& rows_fit_columns(groups@, cols as int) <==> coo_fits_columns(matrix@, cols as int)
        },
{
    match group_rows(matrix, rows) {
        Some(groups) => {
            proof {
                lemma_grouped_validity(matrix@, groups@, rows as int, cols as int);
            }
            if rows_increase(&groups) {
                Some(groups)
            } else {
                None
            }
        },
        None => None,
    }
}

/// A sparse matrix over a field in compressed-row form, with the names that
/// scipy uses: row `r` holds the values `data[indptr[r]..indptr[r + 1]]` in the
/// columns `indices[indptr[r]..indptr[r + 1]]`.
#[derive(Debug, PartialEq, Eq)]
pub struct SparseMatrix<F: FieldElement> {
    /// all non-zero values in the matrix
    pub data: Vec<F>,
    /// column indices
    pub indices: Vec<usize>,
    /// row information
    pub indptr: Vec<usize>,
    /// number of columns
    pub cols: usize,
}

impl<F: FieldElement> SparseMatrix<F> {
    /// The number of rows.
    pub open spec fn rows(&self) -> int {
        self.indptr@.len() - 1
    }

    /// The number of stored entries.
    pub open spec fn nnz(&self) -> int {
        self.data@.len() as int
    }

    /// The three vectors fit together: the row offsets start at zero, never
    /// decrease and end at the number of entries, and every entry has a value
    /// and a column.
    pub open spec fn is_csr(&self) -> bool {
        &&& self.indptr@.len() >= 1
        &&& self.indptr@[0] == 0
        &&& self.indptr@[self.rows()] == self.data@.len()
        &&& self.data@.len() == self.indices@.len()
        &&& forall|r: int, t: int|
            0 <= r <= t < self.indptr@.len() ==> self.indptr@[r] <= self.indptr@[t]
    }

    /// Every entry lies in one of the first `cols` columns, so that the matrix
    /// can be multiplied with a vector of `cols` entries.
    pub open spec fn fits_columns(&self) -> bool {
        forall|k: int| 0 <= k < self.indices@.len() ==> self.indices@[k] < self.cols
    }

    /// Entry `k` lies in row `r`.
    pub open spec fn in_row(&self, r: int, k: int) -> bool {
        0 <= r < self.rows() && self.indptr@[r] <= k < self.indptr@[r + 1]
    }

    /// Inside each row the columns strictly increase, so no row names a column twice.
    pub open spec fn has_increasing_columns(&self) -> bool {
        forall|r: int, j: int, k: int|
            #![trigger self.in_row(r, j), self.in_row(r, k)]
            self.in_row(r, j) && self.in_row(r, k) && j < k ==> self.indices@[j] < self.indices@[k]
    }

    /// The invariant of the type.
    pub open spec fn wf(&self) -> bool {
        self.is_csr() && self.has_increasing_columns()
    }

    /// Row `r` as the sequence of its entries, each a column and a value.
    pub open spec fn row(&self, r: int) -> Seq<(usize, F)> {
        Seq::new(
            (self.indptr@[r + 1] - self.indptr@[r]) as nat,
            |j: int| (self.indices@[self.indptr@[r] + j], self.data@[self.indptr@[r] + j]),
        )
    }

    /// The row that entry `k` lies in.
    pub open spec fn row_of(&self, k: int) -> int {
        choose|r: int| self.in_row(r, k)
    }

    /// Entry `k` as a triple of row, column and value.
    pub open spec fn triple(&self, k: int) -> (usize, usize, F) {
        (self.row_of(k) as usize, self.indices@[k], self.data@[k])
    }

    /// All entries as triples, row by row and inside each row in its order.
    pub open spec fn triples(&self) -> Seq<(usize, usize, F)> {
        Seq::new(self.nnz() as nat, |k: int| self.triple(k))
    }

    /// An entry lies in one row only.
    pub proof fn lemma_row_of(&self, r: int, k: int)
        requires
            self.is_csr(),
            self.in_row(r, k),
        ensures
            self.row_of(k) == r,
    {
        let other = self.row_of(k);
        assert(self.in_row(other, k));
        if other < r {
            assert(self.indptr@[other + 1] <= self.indptr@[r]);
        } else if r < other {
            assert(self.indptr@[r + 1] <= self.indptr@[other]);
        }
    }

    /// The sum over the entries `[lo, hi)` of the entry's value times the
    /// vector's value at the entry's column, over the integers.
    pub open spec fn span_dot(&self, vector: Seq<F>, lo: int, hi: int) -> nat
        decreases hi - lo,
    {
        if hi <= lo {
            0
        } else {
            self.span_dot(vector, lo, hi - 1) + self.data@[hi - 1].value()
                * vector[self.indices@[hi - 1] as int].value()
        }
    }

    /// The integer that entry `r` of the product with `vector` stands for.
    pub open spec fn row_dot(&self, vector: Seq<F>, r: int) -> nat {
        self.span_dot(vector, self.indptr@[r] as int, self.indptr@[r + 1] as int) % F::modulus()
    }

    /// `out` is the product of the matrix with `vector`.
    pub open spec fn is_product(&self, vector: Seq<F>, out: Seq<F>) -> bool {
        &&& out.len() == self.rows()
        &&& forall|r: int| 0 <= r < out.len() ==> (#[trigger] out[r]).value() == self.row_dot(vector, r)
    }

    /// 0x0 empty matrix
    pub fn empty() -> (m: Self)
        ensures
            m.wf(),
            m.rows() == 0,
            m.cols == 0,
            m.nnz() == 0,
            m.indptr@ == seq![0usize],
            m.fits_columns(),
    {
        let mut indptr: Vec<usize> = Vec::new();
        indptr.push(0);
        SparseMatrix { data: Vec::new(), indices: Vec::new(), indptr, cols: 0 }
    }

    /// Writes rows of entries one after the other in compressed form.
    fn from_rows(groups: &Vec<Vec<(usize, F)>>, cols: usize) -> (m: Self)
        requires
            groups.len() < usize::MAX,
            forall|row: int| 0 <= row < groups.len() ==> is_increasing(#[trigger] groups[row]@),
        ensures
            m.wf(),
            m.rows() == groups.len(),
            m.cols == cols,
            forall|row: int| 0 <= row < groups.len() ==> #[trigger] m.row(row) == groups[row]@,
            m.fits_columns() <==> rows_fit_columns(groups@, cols as int),
    {
        let rows = groups.len();
        let mut indptr: Vec<usize> = Vec::new();
        indptr.push(0);
        let mut indices: Vec<usize> = Vec::new();
        let mut data: Vec<F> = Vec::new();
        let mut r: usize = 0;
        while r < rows
            invariant
                r <= rows,
                rows == groups.len(),
                rows < usize::MAX,
                indptr.len() == r + 1,
                indptr[0] == 0,
                indptr[r as int] == data.len(),
                data.len() == indices.len(),
                forall|a: int, b: int| 0 <= a <= b <= r ==> indptr[a] <= indptr[b],
                rows_fit_columns(groups@, cols as int) ==> forall|k: int|
                    0 <= k < indices.len() ==> indices[k] < cols,
                forall|t: int| 0 <= t < r ==> indptr[t + 1] - indptr[t] == (#[trigger] groups[t])@.len(),
                forall|t: int, j: int|
                    0 <= t < r && 0 <= j < groups[t]@.len() ==> (#[trigger] groups[t]@[j]) == (
                        indices[indptr[t] + j],
                        data[indptr[t] + j],
                    ),
            decreases rows - r,
        {
            let row = &groups[r];
            let ghost start = data.len() as int;
            let ghost old_indices = indices@;
            let ghost old_data = data@;
            let mut j: usize = 0;
            while j < row.len()
                invariant
                    j <= row.len(),
                    r < rows,
                    rows == groups.len(),
                    row@ == groups[r as int]@,
                    start == old_data.len(),
                    old_data.len() == old_indices.len(),
                    data.len() == start + j,
                    indices.len() == start + j,
                    forall|k: int|
                        0 <= k < start ==> indices[k] == old_indices[k] && data[k] == old_data[k],
                    forall|k: int|
                        0 <= k < j ==> (#[trigger] row@[k]) == (indices[start + k], data[start + k]),
                    rows_fit_columns(groups@, cols as int) ==> forall|k: int|
                        0 <= k < indices.len() ==> indices[k] < cols,
                decreases row.len() - j,
            {
                let (col, val) = row[j];
                proof {
                    if rows_fit_columns(groups@, cols as int) {
                        assert(groups[r as int]@[j as int].0 < cols);
                    }
                }
                indices.push(col);
                data.push(val);
                j += 1;
            }
            let ghost old_indptr = indptr@;
            indptr.push(data.len());
            proof {
                assert forall|a: int, b: int| 0 <= a <= b <= r + 1 implies indptr[a] <= indptr[b] by {
                    if b == r + 1 {
                        if a <= r {
                            assert(old_indptr[a] <= old_indptr[r as int]);
                        }
                    } else {
                        assert(old_indptr[a] <= old_indptr[b]);
                    }
                }
                assert forall|t: int, j: int|
                    0 <= t < r + 1 && 0 <= j < groups[t]@.len() implies (#[trigger] groups[t]@[j]) == (
                    indices[indptr[t] + j],
                    data[indptr[t] + j],
                ) by {
                    if t < r {
                        assert(groups[t]@[j] == (
                            old_indices[old_indptr[t] + j],
                            old_data[old_indptr[t] + j],
                        ));
                        assert(old_indptr[t + 1] <= old_indptr[r as int]);
                    }
                }
            }
            r += 1;
        }
        let m = SparseMatrix { data, indices, indptr, cols };
        proof {
            assert forall|row: int| 0 <= row < rows implies #[trigger] m.row(row) == groups[row]@ by {
                let group = groups[row]@;
                assert(m.row(row).len() == group.len());
                assert forall|j: int| 0 <= j < group.len() implies m.row(row)[j] == group[j] by {
                    assert(group[j] == (m.indices@[m.indptr@[row] + j], m.data@[m.indptr@[row] + j]));
                }
                assert(m.row(row) =~= group);
            }
            assert forall|row: int, j: int, k: int|
                #![trigger m.in_row(row, j), m.in_row(row, k)]
                m.in_row(row, j) && m.in_row(row, k) && j < k implies m.indices@[j] < m.indices@[k] by {
                let group = groups[row]@;
                let a = j - m.indptr@[row];
                let b = k - m.indptr@[row];
                assert(is_increasing(group));
                assert(group[a] == (m.indices@[m.indptr@[row] + a], m.data@[m.indptr@[row] + a]));
                assert(group[b] == (m.indices@[m.indptr@[row] + b], m.data@[m.indptr@[row] + b]));
                assert(group[a].0 < group[b].0);
            }
            if m.fits_columns() {
                assert forall|row: int, j: int|
                    0 <= row < groups.len() && 0 <= j < groups[row]@.len() implies (
                #[trigger] groups[row]@[j]).0 < cols by {
                    assert(groups[row]@[j] == (
                        m.indices@[m.indptr@[row] + j],
                        m.data@[m.indptr@[row] + j],
                    ));
                    assert(m.indptr@[row + 1] - m.indptr@[row] == groups[row]@.len());
                    assert(m.indptr@[row + 1] <= m.indptr@[rows as int]);
                }
            }
        }
        m
    }

    /// Construct from the COO representation; Vec<usize(row), usize(col), F>.
    ///
    /// The entries are grouped by row, each row keeping the order of the list.
    /// The list is refused where the columns of a row do not strictly
    /// increase, or where an entry names a row that the matrix does not have.
    ///
    /// Where the list comes sorted by row, the matrix holds its entries in the
    /// order of the list. `cols` is recorded for the products and is not held
    /// against the list:
    /// [`fits_columns`](Self::fits_columns) tells whether the matrix can be
    /// multiplied.
    pub fn new(matrix: &[(usize, usize, F)], rows: usize, cols: usize) -> (r: Result<Self, Error>)
        requires
            rows < usize::MAX,
        ensures
            is_valid_coo(matrix@, rows as int) ==> (r matches Ok(m) && m.wf() && m.rows() == rows
                && m.cols == cols && m.nnz() == matrix@.len() && (m.fits_columns()
                <==> coo_fits_columns(matrix@, cols as int)) && (is_sorted_by_row(matrix@)
                ==> m.triples() == matrix@) && forall|row: int|
                0 <= row < rows ==> #[trigger] m.row(row) == coo_row(matrix@, row)),
            !is_valid_coo(matrix@, rows as int) ==> r == Err::<Self, Error>(Error::MalformedMatrix),
    {
        match valid_rows(matrix, rows, cols) {
            Some(new_matrix) => {
                let m = Self::from_rows(&new_matrix, cols);
                proof {
                    lemma_entry_count(matrix@, m);
                    if is_sorted_by_row(matrix@) {
                        lemma_triples_of_sorted_list(matrix@, m);
                    }
                }
                Ok(m)
            },
            None => Err(Error::MalformedMatrix),
        }
    }

    /// Retrieves the data for row slice [i..j] from `ptrs`: each value with its column.
    /// We assume that `ptrs` is indexed from `indptrs` and do not check if the
    /// returned slice is actually a valid row.
    pub fn get_row_unchecked(&self, ptrs: &[usize; 2]) -> (row: Vec<(F, usize)>)
        requires
            ptrs[0] <= ptrs[1] <= self.data@.len(),
            ptrs[1] <= self.indices@.len(),
        ensures
            row@ == Seq::new(
                (ptrs[1] - ptrs[0]) as nat,
                |j: int| (self.data@[ptrs[0] + j], self.indices@[ptrs[0] + j]),
            ),
    {
        let lo = ptrs[0];
        let hi = ptrs[1];
        let mut row: Vec<(F, usize)> = Vec::with_capacity(hi - lo);
        let mut k: usize = lo;
        while k < hi
            invariant
                lo <= k <= hi,
                hi <= self.data@.len(),
                hi <= self.indices@.len(),
                row@ == Seq::new(
                    (k - lo) as nat,
                    |j: int| (self.data@[lo + j], self.indices@[lo + j]),
                ),
            decreases hi - k,
        {
            row.push((self.data[k], self.indices[k]));
            k += 1;
        }
        row
    }

    /// Entry `r` of the product with `vector`: the values of row `r`, each
    /// times the vector's entry at its column, added up in the order of the row.
    fn row_product(&self, vector: &[F], r: usize) -> (sum: F)
        requires
            self.is_csr(),
            self.fits_columns(),
            vector@.len() == self.cols,
            r < self.rows(),
        ensures
            sum.value() == self.row_dot(vector@, r as int),
    {
        let offsets = self.indptr.len();
        let lo = self.indptr[r];
        let hi = self.indptr[r + 1];
        let mut sum = F::zero();
        let mut k: usize = lo;
        proof {
            F::lemma_modulus_positive();
            vstd::arithmetic::div_mod::lemma_small_mod(0, F::modulus());
        }
        while k < hi
            invariant
                self.is_csr(),
                self.fits_columns(),
                vector@.len() == self.cols,
                lo <= k <= hi,
                hi <= self.data@.len(),
                F::modulus() > 1,
                sum.value() == self.span_dot(vector@, lo as int, k as int) % F::modulus(),
            decreases hi - k,
        {
            let term = self.data[k].mul(&vector[self.indices[k]]);
            let next = sum.add(&term);
            proof {
                let m = F::modulus() as int;
                let before = self.span_dot(vector@, lo as int, k as int) as int;
                let product = (self.data@[k as int].value() * vector@[self.indices@[k as int] as int].value()) as int;
                vstd::arithmetic::div_mod::lemma_add_mod_noop(before, product, m);
            }
            sum = next;
            k += 1;
        }
        sum
    }

    /// Multiply by a dense vector; the rows are evaluated on the thread pool.
    pub fn multiply_vec(&self, vector: &[F]) -> (r: Result<Vec<F>, Error>)
        requires
            self.is_csr(),
            self.fits_columns(),
        ensures
            vector@.len() != self.cols ==> r == Err::<Vec<F>, Error>(Error::ShapeMismatch),
            vector@.len() == self.cols ==> (r matches Ok(out) && self.is_product(vector@, out@)),
    {
        if self.cols != vector.len() {
            return Err(Error::ShapeMismatch);
        }
        Ok(self.multiply_vec_unchecked(vector))
    }

    /// Multiply by a dense vector; the rows are evaluated on the thread pool.
    /// This does not check that the shape of the matrix/vector are compatible:
    /// the caller has.
    pub fn multiply_vec_unchecked(&self, vector: &[F]) -> (out: Vec<F>)
        requires
            self.is_csr(),
            self.fits_columns(),
            vector@.len() == self.cols,
        ensures
            self.is_product(vector@, out@),
    {
        let rows = self.indptr.len() - 1;
        let task = |r: usize| -> (sum: F)
            requires
                r < rows,
            ensures
                sum.value() == self.row_dot(vector@, r as int),
            { self.row_product(vector, r) };
        let out = par_map_range(rows, task);
        proof {
            assert forall|r: int| 0 <= r < out.len() implies (#[trigger] out[r]).value()
                == self.row_dot(vector@, r) by {
                assert(call_ensures(task, (r as usize,), out[r]));
            }
        }
        out
    }

    /// Multiply by the witness vector that is given in three segments and
    /// stands for `[W, u, U]`.
    #[allow(non_snake_case)]
    pub fn multiply_witness(&self, W: &[F], u: &F, U: &[F]) -> (r: Result<Vec<F>, Error>)
        requires
            self.is_csr(),
            self.fits_columns(),
        ensures
            W@.len() + 1 + U@.len() != self.cols ==> r == Err::<Vec<F>, Error>(
                Error::WitnessShapeMismatch,
            ),
            W@.len() + 1 + U@.len() == self.cols ==> (r matches Ok(out) && self.is_product(
                W@ + seq![*u] + U@,
                out@,
            )),
    {
        let fits = match W.len().checked_add(U.len()) {
            Some(segments) => match segments.checked_add(1) {
                Some(total) => total == self.cols,
                None => false,
            },
            None => false,
        };
        if !fits {
            return Err(Error::WitnessShapeMismatch);
        }
        let mut vector: Vec<F> = Vec::new();
        let mut i: usize = 0;
        while i < W.len()
            invariant
                i <= W@.len(),
                vector@ == W@.take(i as int),
            decreases W@.len() - i,
        {
            vector.push(W[i]);
            proof {
                assert(W@.take(i + 1) == W@.take(i as int).push(W@[i as int]));
            }
            i += 1;
        }
        vector.push(*u);
        let mut i: usize = 0;
        while i < U.len()
            invariant
                i <= U@.len(),
                vector@ == W@ + seq![*u] + U@.take(i as int),
            decreases U@.len() - i,
        {
            vector.push(U[i]);
            proof {
                assert(U@.take(i + 1) == U@.take(i as int).push(U@[i as int]));
                assert(W@ + seq![*u] + U@.take(i + 1) == (W@ + seq![*u] + U@.take(i as int)).push(
                    U@[i as int],
                ));
            }
            i += 1;
        }
        proof {
            assert(W@.take(W@.len() as int) == W@);
            assert(U@.take(U@.len() as int) == U@);
        }
        Ok(self.multiply_vec_unchecked(vector.as_slice()))
    }

    /// number of non-zero entries
    pub fn len(&self) -> (n: usize)
        requires
            self.indptr@.len() >= 1,
        ensures
            n == self.indptr@[self.rows()],
    {
        self.indptr[self.indptr.len() - 1]
    }

    /// empty matrix
    pub fn is_empty(&self) -> (b: bool)
        requires
            self.indptr@.len() >= 1,
        ensures
            b == (self.indptr@[self.rows()] == 0),
    {
        self.len() == 0
    }

    /// Whether the three vectors fit together, as [`is_csr`](Self::is_csr) asks.
    pub fn check_csr(&self) -> (b: bool)
        ensures
            b == self.is_csr(),
    {
        let offsets = self.indptr.len();
        if offsets == 0 || self.indptr[0] != 0 || self.indptr[offsets - 1] != self.data.len()
            || self.data.len() != self.indices.len() {
            return false;
        }
        let mut r: usize = 1;
        while r < offsets
            invariant
                1 <= r <= offsets,
                offsets == self.indptr@.len(),
                forall|a: int, b: int| 0 <= a <= b < r ==> self.indptr@[a] <= self.indptr@[b],
            decreases offsets - r,
        {
            if self.indptr[r - 1] > self.indptr[r] {
                return false;
            }
            proof {
                assert forall|a: int, b: int| 0 <= a <= b < r + 1 implies self.indptr@[a]
                    <= self.indptr@[b] by {
                    if b == r && a < r {
                        assert(self.indptr@[a] <= self.indptr@[r - 1]);
                    }
                }
            }
            r += 1;
        }
        true
    }

    /// Whether every entry lies in one of the first `cols` columns, as the
    /// products ask.
    pub fn check_columns(&self) -> (b: bool)
        ensures
            b == self.fits_columns(),
    {
        let mut k: usize = 0;
        while k < self.indices.len()
            invariant
                k <= self.indices@.len(),
                forall|j: int| 0 <= j < k ==> self.indices@[j] < self.cols,
            decreases self.indices@.len() - k,
        {
            if self.indices[k] >= self.cols {
                return false;
            }
            k += 1;
        }
        true
    }

    /// Whether the columns strictly increase inside every row.
    pub fn check_increasing_columns(&self) -> (b: bool)
        requires
            self.is_csr(),
        ensures
            b == self.has_increasing_columns(),
    {
        let rows = self.indptr.len() - 1;
        let mut r: usize = 0;
        while r < rows
            invariant
                self.is_csr(),
                r <= rows,
                rows == self.rows(),
                forall|t: int, j: int, k: int|
                    #![trigger self.in_row(t, j), self.in_row(t, k)]
                    t < r && self.in_row(t, j) && self.in_row(t, k) && j < k ==> self.indices@[j]
                        < self.indices@[k],
            decreases rows - r,
        {
            let lo = self.indptr[r];
            let hi = self.indptr[r + 1];
            proof {
                assert(self.indptr@[r + 1] <= self.indptr@[self.rows()]);
            }
            if lo < hi {
                let mut k: usize = lo + 1;
                while k < hi
                    invariant
                        self.is_csr(),
                        r < self.rows(),
                        lo == self.indptr@[r as int],
                        hi == self.indptr@[r + 1],
                        hi <= self.indices@.len(),
                        lo < k <= hi,
                        forall|a: int, b: int|
                            lo <= a < b < k ==> self.indices@[a] < self.indices@[b],
                    decreases hi - k,
                {
                    if self.indices[k - 1] >= self.indices[k] {
                        proof {
                            assert(self.in_row(r as int, k - 1) && self.in_row(r as int, k as int));
                        }
                        return false;
                    }
                    proof {
                        assert forall|a: int, b: int| lo <= a < b < k + 1 implies self.indices@[a]
                            < self.indices@[b] by {
                            if b == k && a < k - 1 {
                                assert(self.indices@[a] < self.indices@[k - 1]);
                            }
                        }
                    }
                    k += 1;
                }
            }
            r += 1;
        }
        true
    }

    /// Whether the matrix meets the invariant of the type; a matrix that was
    /// put together field by field is checked with this before it is used,
    /// and with [`check_columns`](Self::check_columns) before it is multiplied.
    pub fn validate(&self) -> (r: Result<(), Error>)
        ensures
            self.wf() ==> r is Ok,
            !self.wf() ==> r == Err::<(), Error>(Error::MalformedMatrix),
    {
        if self.check_csr() && self.check_increasing_columns() {
            Ok(())
        } else {
            Err(Error::MalformedMatrix)
        }
    }

    /// Entry `j` of row `r` is triple number `indptr[r] + j`: the triples are
    /// what a scan of the rows in order finds.
    pub proof fn lemma_triples_by_row(&self, r: int, j: int)
        requires
            self.is_csr(),
            0 <= r < self.rows(),
            0 <= j < self.row(r).len(),
        ensures
            self.triples().len() == self.nnz(),
            self.indptr@[r] + j < self.nnz(),
            self.triples()[self.indptr@[r] + j] == (r as usize, self.row(r)[j].0, self.row(r)[j].1),
    {
        let k = self.indptr@[r] + j;
        assert(self.indptr@[r + 1] <= self.indptr@[self.rows()]);
        assert(self.in_row(r, k));
        self.lemma_row_of(r, k);
    }

    /// returns a custom iterator
    pub fn iter(&self) -> (it: Iter<'_, F>)
        requires
            self.is_csr(),
        ensures
            it.matrix() == self,
            it.position() == 0,
    {
        let nnz = self.len();
        let offsets = self.indptr.len();
        let mut row: usize = 0;
        if nnz > 0 {
            while self.indptr[row + 1] == 0
                invariant
                    self.is_csr(),
                    offsets == self.indptr@.len(),
                    nnz == self.data@.len(),
                    nnz > 0,
                    row < self.rows(),
                    self.indptr@[row as int] == 0,
                decreases self.rows() - row,
            {
                row += 1;
            }
        }
        Iter { matrix: self, row, i: 0, nnz }
    }
}

/// [SparseMatrix]s are often large, and this helps with cloning bottlenecks
impl<F: FieldElement> Clone for SparseMatrix<F> {
    fn clone(&self) -> (copy: Self)
        ensures
            copy.data@ == self.data@,
            copy.indices@ == self.indices@,
            copy.indptr@ == self.indptr@,
            copy.cols == self.cols,
    {
        SparseMatrix {
            data: par_copy(&self.data),
            indices: par_copy(&self.indices),
            indptr: par_copy(&self.indptr),
            cols: self.cols,
        }
    }
}

/// A copy of the vector, made on the thread pool.
fn par_copy<T: Copy + Send + Sync>(items: &Vec<T>) -> (copy: Vec<T>)
    ensures
        copy@ == items@,
{
    let n = items.len();
    let task = |i: usize| -> (item: T)
        requires
            i < n,
        ensures
            item == items@[i as int],
        { items[i] };
    let copy = par_map_range(n, task);
    proof {
        assert forall|i: int| 0 <= i < n implies copy@[i] == items@[i] by {
            assert(call_ensures(task, (i as usize,), copy[i]));
        }
        assert(copy@ =~= items@);
    }
    copy
}

/// Iterator for sparse matrix
pub struct Iter<'a, F: FieldElement> {
    matrix: &'a SparseMatrix<F>,
    row: usize,
    i: usize,
    nnz: usize,
}

impl<'a, F: FieldElement> Iter<'a, F> {
    #[verifier::type_invariant]
    closed spec fn inv(&self) -> bool {
        &&& self.matrix.is_csr()
        &&& self.nnz == self.matrix.data@.len()
        &&& self.i <= self.nnz
        &&& self.i < self.nnz ==> self.matrix.in_row(self.row as int, self.i as int)
    }

    /// The matrix that is walked.
    pub closed spec fn matrix(&self) -> &SparseMatrix<F> {
        self.matrix
    }

    /// The number of entries that were handed out.
    pub closed spec fn position(&self) -> int {
        self.i as int
    }

    /// The next entry as a triple of row, column and value, or `None` when
    /// all entries were handed out.
    pub fn next(&mut self) -> (item: Option<(usize, usize, F)>)
        ensures
            final(self).matrix() == old(self).matrix(),
            old(self).position() <= old(self).matrix().nnz(),
            old(self).position() < old(self).matrix().nnz() ==> item == Some(
                old(self).matrix().triple(old(self).position()),
            ) && final(self).position() == old(self).position() + 1,
            old(self).position() == old(self).matrix().nnz() ==> item is None
                && final(self).position() == old(self).position(),
    {
        proof {
            use_type_invariant(&*self);
        }
        // are we at the end?
        if self.i == self.nnz {
            return None;
        }
        // compute current item
        let matrix = self.matrix;
        let curr_item = (self.row, matrix.indices[self.i], matrix.data[self.i]);
        proof {
            matrix.lemma_row_of(self.row as int, self.i as int);
        }
        // advance the iterator
        let i = self.i + 1;
        let offsets = matrix.indptr.len();
        let mut row = self.row;
        if i < self.nnz {
            // if `i` has moved to next row
            while i >= matrix.indptr[row + 1]
                invariant
                    matrix.is_csr(),
                    offsets == matrix.indptr@.len(),
                    i < matrix.data@.len(),
                    row < matrix.rows(),
                    matrix.indptr@[row as int] <= i,
                decreases matrix.rows() - row,
            {
                row += 1;
            }
        }
        *self = Iter { matrix, row, i, nnz: self.nnz };
        Some(curr_item)
    }

    /// All entries that are left, in order.
    pub fn collect(self) -> (rest: Vec<(usize, usize, F)>)
        ensures
            0 <= self.position() <= self.matrix().nnz(),
            rest@ == self.matrix().triples().skip(self.position()),
    {
        let mut it = self;
        let mut rest: Vec<(usize, usize, F)> = Vec::new();
        proof {
            use_type_invariant(&it);
        }
        loop
            invariant
                it.matrix() == self.matrix(),
                self.position() <= it.position() <= self.matrix().nnz(),
                rest@ == self.matrix().triples().subrange(self.position(), it.position()),
            ensures
                rest@ == self.matrix().triples().skip(self.position()),
            decreases self.matrix().nnz() - it.position(),
        {
            let ghost before = it.position();
            match it.next() {
                Some(item) => {
                    rest.push(item);
                    proof {
                        let all = self.matrix().triples();
                        assert(all.subrange(self.position(), before + 1) == all.subrange(
                            self.position(),
                            before,
                        ).push(all[before]));
                    }
                },
                None => {
                    proof {
                        let all = self.matrix().triples();
                        assert(all.subrange(self.position(), all.len() as int) == all.skip(
                            self.position(),
                        ));
                    }
                    break ;
                },
            }
        }
        rest
    }
}

/// A type that holds commitment generators
#[derive(Clone, Debug, PartialEq, Eq)]
pub struct CommitmentKey<C> {
    pub ck: Vec<C>,
}

/// How many consecutive indices one parallel task of a generator fills.
pub const STRIDE: usize = 1024;

/// The length of the message that one generated point is hashed from.
pub const MESSAGE_BYTES: usize = 32;

/// The domain prefix under which generated points are hashed.
pub open spec fn point_domain() -> Seq<char> {
    "foobar"@
}

/// The point that index `i` of a generated set is the affine form of: the
/// hash of the `i`-th 32-byte slice of the random input.
pub open spec fn hashed_point(rnd: Seq<u8>, i: int) -> Point {
    hash_to_curve_point(point_domain(), rnd.subrange(32 * i, 32 * i + 32))
}

/// The number of strides that cover `n` indices.
pub open spec fn stride_count(n: nat) -> nat {
    if n == 0 {
        0
    } else {
        ((n - 1) / 1024 + 1) as nat
    }
}

/// `out` holds the points of the indices `[start, start + out.len())`.
pub open spec fn holds_points_from(out: Seq<Affine>, rnd: Seq<u8>, start: int) -> bool {
    forall|j: int|
        0 <= j < out.len() ==> is_affine_form_of(#[trigger] out[j], hashed_point(rnd, start + j))
            && out[j].is_valid()
}

/// The number of indices in stride `s` of `n` indices: a full stride, or what
/// is left for the last one.
pub open spec fn stride_len(n: int, s: int) -> int {
    if s * 1024 + 1024 <= n {
        1024
    } else {
        n - s * 1024
    }
}

/// The number of strides that cover `n` indices.
fn count_strides(n: usize) -> (r: usize)
    ensures
        r == stride_count(n as nat),
        r * 1024 >= n,
        n > 0 ==> (r - 1) * 1024 < n,
{
    if n == 0 {
        0
    } else {
        (n - 1) / STRIDE + 1
    }
}

/// Writes the strides one after the other into one vector: index `k` of the
/// result comes from place `k % 1024` of stride `k / 1024`.
fn join_strides<T: Copy>(strides: &Vec<Vec<T>>, n: usize) -> (ret: Vec<T>)
    requires
        strides.len() == stride_count(n as nat),
        forall|s: int| 0 <= s < strides.len() ==> (#[trigger] strides[s]).len() == stride_len(n as int, s),
    ensures
        ret.len() == n,
        forall|k: int| 0 <= k < n ==> (#[trigger] ret[k]) == strides[k / 1024][k % 1024],
{
    let nstrides = strides.len();
    let mut ret: Vec<T> = Vec::new();
    let mut s: usize = 0;
    while s < nstrides
        invariant
            s <= nstrides,
            nstrides == strides.len(),
            nstrides == stride_count(n as nat),
            forall|t: int|
                0 <= t < strides.len() ==> (#[trigger] strides[t]).len() == stride_len(n as int, t),
            ret.len() == if s == nstrides {
                n as int
            } else {
                s * 1024
            },
            forall|k: int| 0 <= k < ret.len() ==> (#[trigger] ret[k]) == strides[k / 1024][k % 1024],
        decreases nstrides - s,
    {
        let stride = &strides[s];
        let ghost before = ret@;
        let mut j: usize = 0;
        while j < stride.len()
            invariant
                j <= stride.len(),
                s < nstrides,
                stride.len() == stride_len(n as int, s as int),
                stride@ == strides[s as int]@,
                before.len() == s * 1024,
                ret@ == before + stride@.take(j as int),
            decreases stride.len() - j,
        {
            ret.push(stride[j]);
            proof {
                assert(stride@.take(j + 1) == stride@.take(j as int).push(stride@[j as int]));
            }
            j += 1;
        }
        proof {
            assert(stride@.take(stride.len() as int) == stride@);
            assert forall|k: int| 0 <= k < ret.len() implies (#[trigger] ret[k]) == strides[k
                / 1024][k % 1024] by {
                if k < before.len() {
                    assert(ret[k] == before[k]);
                } else {
                    assert(ret[k] == stride[k - before.len()]);
                    assert(k / 1024 == s && k % 1024 == k - before.len());
                }
            }
        }
        s += 1;
    }
    ret
}

/// Hashes the messages of the indices `[start, end)` to the curve and brings
/// the whole stride to affine form in one batch.
fn hash_stride(rnd: &[u8], start: usize, end: usize) -> (out: Vec<Affine>)
    requires
        start <= end,
        32 * end <= rnd.len(),
    ensures
        out.len() == end - start,
        holds_points_from(out@, rnd@, start as int),
{
    let mut tmp: Vec<Point> = Vec::with_capacity(end - start);
    let mut i: usize = start;
    while i < end
        invariant
            start <= i <= end,
            32 * end <= rnd.len(),
            tmp.len() == i - start,
            forall|j: int|
                0 <= j < tmp.len() ==> (#[trigger] tmp[j]) == hashed_point(rnd@, start + j)
                    && tmp[j].is_valid(),
        decreases end - i,
    {
        let off: usize = i * MESSAGE_BYTES;
        let message = slice_subrange(rnd, off, off + MESSAGE_BYTES);
        proof {
            reveal_strlit("foobar");
        }
        let point = hash_to_curve("foobar", message);
        tmp.push(point);
        i += 1;
    }
    batch_normalize(&tmp)
}

/// The points that a buffer of random bytes determines: point `i` is the
/// affine form of the hash of bytes `[32 i, 32 i + 32)`.
///
/// The index range is cut into strides of [`STRIDE`] indices; the strides are
/// handed to the thread pool, each task hashing its own messages and filling
/// its own part of the result.
pub fn points_from_bytes(rnd: &[u8], npoints: usize) -> (ret: Vec<Affine>)
    requires
        rnd.len() == 32 * npoints,
    ensures
        ret.len() == npoints,
        holds_points_from(ret@, rnd@, 0),
{
    let nstrides = count_strides(npoints);
    let task = |s: usize| -> (out: Vec<Affine>)
        requires
            s < nstrides,
        ensures
            out.len() == stride_len(npoints as int, s as int),
            holds_points_from(out@, rnd@, s * 1024),
        {
            let start: usize = s * STRIDE;
            let end: usize = if npoints - start >= STRIDE {
                start + STRIDE
            } else {
                npoints
            };
            hash_stride(rnd, start, end)
        };
    let strides = par_map_range(nstrides, task);
    let ret = join_strides(&strides, npoints);
    proof {
        assert forall|k: int| 0 <= k < ret.len() implies is_affine_form_of(
            #[trigger] ret[k],
            hashed_point(rnd@, k),
        ) && ret[k].is_valid() by {
            let s = k / 1024;
            assert(call_ensures(task, (s as usize,), strides[s]));
            assert(ret[k] == strides[s][k % 1024]);
            assert(s * 1024 + k % 1024 == k);
        }
    }
    ret
}

/// `npoints` random points of the curve in affine form.
///
/// Samples `32 * npoints` random bytes and hashes each 32-byte slice to the
/// curve, as [`points_from_bytes`] describes.
pub fn gen_points(npoints: usize) -> (ret: Vec<Affine>)
    requires
        32 * npoints <= isize::MAX,
    ensures
        ret.len() == npoints,
        forall|i: int| 0 <= i < ret.len() ==> (#[trigger] ret[i]).is_valid(),
        exists|rnd: Seq<u8>| rnd.len() == 32 * npoints && #[trigger] holds_points_from(ret@, rnd, 0),
{
    let mut rng = rng_from_entropy();
    let rnd = random_bytes(&mut rng, MESSAGE_BYTES * npoints);
    let ret = points_from_bytes(rnd.as_slice(), npoints);
    proof {
        assert(holds_points_from(ret@, rnd@, 0));
    }
    ret
}

/// All scalars stand for integers below the order of the field.
pub open spec fn are_scalars(s: Seq<Fq>) -> bool {
    forall|i: int| 0 <= i < s.len() ==> (#[trigger] s[i]).value() < fq_modulus()
}

/// `count` random scalars from the generator.
fn random_scalars(rng: &mut ChaCha20Rng, count: usize) -> (out: Vec<Fq>)
    ensures
        out.len() == count,
        are_scalars(out@),
{
    let mut out: Vec<Fq> = Vec::new();
    let mut i: usize = 0;
    while i < count
        invariant
            i <= count,
            out.len() == i,
            are_scalars(out@),
        decreases count - i,
    {
        out.push(random_scalar(rng));
        i += 1;
    }
    out
}

/// `count` random scalars from a generator that the calling worker seeds for itself.
fn random_stride(count: usize) -> (out: Vec<Fq>)
    ensures
        out.len() == count,
        are_scalars(out@),
{
    let mut rng = rng_from_entropy();
    random_scalars(&mut rng, count)
}

/// `npoints` random scalars, each drawn uniformly from the field.
///
/// The index range is cut into strides as for [`gen_points`]; every task
/// draws from a generator of its own and fills its own part of the result.
pub fn gen_scalars(npoints: usize) -> (ret: Vec<Fq>)
    ensures
        ret.len() == npoints,
        are_scalars(ret@),
{
    let nstrides = count_strides(npoints);
    let task = |s: usize| -> (out: Vec<Fq>)
        requires
            s < nstrides,
        ensures
            out.len() == stride_len(npoints as int, s as int),
            are_scalars(out@),
        {
            let start: usize = s * STRIDE;
            let count: usize = if npoints - start >= STRIDE {
                STRIDE
            } else {
                npoints - start
            };
            random_stride(count)
        };
    let strides = par_map_range(nstrides, task);
    proof {
        assert forall|s: int| 0 <= s < strides.len() implies (#[trigger] strides[s]).len()
            == stride_len(npoints as int, s) by {
            assert(call_ensures(task, (s as usize,), strides[s]));
        }
    }
    let ret = join_strides(&strides, npoints);
    proof {
        assert forall|k: int| 0 <= k < ret.len() implies (#[trigger] ret[k]).value()
            < fq_modulus() by {
            let s = k / 1024;
            assert(call_ensures(task, (s as usize,), strides[s]));
            assert(ret[k] == strides[s][k % 1024]);
        }
    }
    ret
}

/// The number of values that occur very often in a skewed mix.
pub const HIGH_FREQ_VALUES: usize = 50;

/// How often each of the very frequent values occurs.
pub const HIGH_FREQ_REPEATS: usize = 10_000;

/// The number of values that occur often in a skewed mix.
pub const LOW_FREQ_VALUES: usize = 1_000;

/// How often each of the frequent values occurs.
pub const LOW_FREQ_REPEATS: usize = 1_000;

/// The longest that the runs of zeros and of ones are together; one scalar
/// in five of the two runs is a one.
pub const IDENTITY_RUNS: usize = 2_500_000;

/// How a skewed mix of a given length is divided: the lengths of the runs of
/// zeros and of ones, the numbers of very frequent and of frequent values,
/// and the number of random scalars that fill the remainder.
#[derive(Clone, Copy, Debug, PartialEq, Eq)]
pub struct MixPlan {
    pub zeros: usize,
    pub ones: usize,
    pub high_values: usize,
    pub low_values: usize,
    pub rest: usize,
}

/// The division of a mix of `len` scalars.
///
/// The very frequent values come first: as many of the 50 as fit with all
/// their ten thousand repeats. Then the frequent values: as many of the 1000
/// as fit with all their thousand repeats. Of what is left, up to two and a
/// half million scalars are zeros and ones, one in five a one. The remainder
/// is random. From four million scalars on this is two million zeros, half a
/// million ones, all 50 and all 1000 values, and `len - 4_000_000` random
/// scalars.
pub open spec fn mix_plan_of(len: nat) -> MixPlan {
    let high: nat = if len / 10_000 < 50 {
        len / 10_000
    } else {
        50
    };
    let after_high: nat = (len - high * 10_000) as nat;
    let low: nat = if after_high / 1_000 < 1_000 {
        after_high / 1_000
    } else {
        1_000
    };
    let left: nat = (after_high - low * 1_000) as nat;
    let runs: nat = if left < 2_500_000 {
        left
    } else {
        2_500_000
    };
    let ones: nat = runs / 5;
    MixPlan {
        zeros: (runs - ones) as usize,
        ones: ones as usize,
        high_values: high as usize,
        low_values: low as usize,
        rest: (left - runs) as usize,
    }
}

impl MixPlan {
    /// The number of scalars that the plan accounts for.
    pub open spec fn total(&self) -> int {
        self.zeros + self.ones + self.high_values * 10_000 + self.low_values * 1_000 + self.rest
    }

    /// The division of a mix of `len` scalars; it accounts for every one of them.
    pub fn new(len: usize) -> (plan: Self)
        ensures
            plan == mix_plan_of(len as nat),
            plan.total() == len,
            plan.high_values <= 50,
            plan.low_values <= 1_000,
            len >= 4_000_000 ==> plan == (MixPlan {
                zeros: 2_000_000,
                ones: 500_000,
                high_values: 50,
                low_values: 1_000,
                rest: (len - 4_000_000) as usize,
            }),
    {
        let high = if len / HIGH_FREQ_REPEATS < HIGH_FREQ_VALUES {
            len / HIGH_FREQ_REPEATS
        } else {
            HIGH_FREQ_VALUES
        };
        let after_high = len - high * HIGH_FREQ_REPEATS;
        let low = if after_high / LOW_FREQ_REPEATS < LOW_FREQ_VALUES {
            after_high / LOW_FREQ_REPEATS
        } else {
            LOW_FREQ_VALUES
        };
        let left = after_high - low * LOW_FREQ_REPEATS;
        let runs = if left < IDENTITY_RUNS {
            left
        } else {
            IDENTITY_RUNS
        };
        let ones = runs / 5;
        MixPlan { zeros: runs - ones, ones, high_values: high, low_values: low, rest: left - runs }
    }
}

/// `s` is the skewed mix before it is shuffled: `zeros` zeros, `ones` ones,
/// each value of `high` ten thousand times, each value of `low` a thousand
/// times, and then `rest`.
pub open spec fn is_nonuniform_layout(
    s: Seq<Fq>,
    zeros: int,
    ones: int,
    high: Seq<Fq>,
    low: Seq<Fq>,
    rest: Seq<Fq>,
) -> bool {
    let a = zeros;
    let b = a + ones;
    let c = b + high.len() * 10_000;
    let d = c + low.len() * 1_000;
    &&& 0 <= zeros
    &&& 0 <= ones
    &&& s.len() == d + rest.len()
    &&& forall|k: int| 0 <= k < a ==> (#[trigger] s[k]).value() == 0
    &&& forall|k: int| a <= k < b ==> (#[trigger] s[k]).value() == 1
    &&& forall|k: int| b <= k < c ==> #[trigger] s[k] == high[(k - b) / 10_000]
    &&& forall|k: int| c <= k < d ==> #[trigger] s[k] == low[(k - c) / 1_000]
    &&& forall|k: int| d <= k < s.len() ==> #[trigger] s[k] == rest[k - d]
}

/// `v` is a skewed mix of `len` scalars: some order of a layout that is
/// divided as [`mix_plan_of`] says.
pub open spec fn is_nonuniform_mix(v: Seq<Fq>, len: nat) -> bool {
    exists|s: Seq<Fq>, high: Seq<Fq>, low: Seq<Fq>, rest: Seq<Fq>| #[trigger]
        is_nonuniform_layout(
            s,
            mix_plan_of(len).zeros as int,
            mix_plan_of(len).ones as int,
            high,
            low,
            rest,
        ) && high.len() == mix_plan_of(len).high_values && low.len() == mix_plan_of(len).low_values
            && rest.len() == mix_plan_of(len).rest && v.to_multiset() == s.to_multiset()
}

/// Appends `count` copies of `value`.
fn push_repeated(out: &mut Vec<Fq>, value: Fq, count: usize)
    requires
        old(out).len() + count <= usize::MAX,
    ensures
        final(out).len() == old(out).len() + count,
        forall|k: int| 0 <= k < old(out).len() ==> final(out)[k] == old(out)[k],
        forall|k: int| old(out).len() <= k < final(out).len() ==> final(out)[k] == value,
{
    let mut i: usize = 0;
    while i < count
        invariant
            i <= count,
            out.len() == old(out).len() + i,
            forall|k: int| 0 <= k < old(out).len() ==> out[k] == old(out)[k],
            forall|k: int| old(out).len() <= k < out.len() ==> out[k] == value,
        decreases count - i,
    {
        out.push(value);
        i += 1;
    }
}

/// Appends each value of `values` `repeats` times, one value after the other.
fn push_each_repeated(out: &mut Vec<Fq>, values: &[Fq], repeats: usize)
    requires
        repeats > 0,
        old(out).len() + values.len() * repeats <= usize::MAX,
    ensures
        final(out).len() == old(out).len() + values.len() * repeats,
        forall|k: int| 0 <= k < old(out).len() ==> final(out)[k] == old(out)[k],
        forall|k: int|
            old(out).len() <= k < final(out).len() ==> final(out)[k] == values[(k - old(out).len())
                / (repeats as int)],
{
    let ghost base = old(out).len() as int;
    let mut i: usize = 0;
    while i < values.len()
        invariant
            i <= values.len(),
            repeats > 0,
            base == old(out).len(),
            base + values.len() * repeats <= usize::MAX,
            out.len() == base + i * repeats,
            forall|k: int| 0 <= k < base ==> out[k] == old(out)[k],
            forall|k: int| base <= k < out.len() ==> out[k] == values[(k - base) / (repeats as int)],
        decreases values.len() - i,
    {
        let ghost before = out@;
        proof {
            assert(i * repeats + repeats == (i + 1) * repeats) by (nonlinear_arith);
            assert((i + 1) * repeats <= values.len() * repeats) by (nonlinear_arith)
                requires
                    i + 1 <= values.len(),
                    repeats > 0,
            ;
        }
        push_repeated(out, values[i], repeats);
        proof {
            assert forall|k: int| base <= k < out.len() implies out[k] == values[(k - base) / (
            repeats as int)] by {
                if k < before.len() {
                    assert(out[k] == before[k]);
                } else {
                    let d = k - base - i * repeats;
                    assert(0 <= d < repeats);
                    assert((i * repeats + d) / (repeats as int) == i) by (nonlinear_arith)
                        requires
                            0 <= d < repeats,
                            0 <= i,
                    ;
                }
            }
        }
        i += 1;
    }
}

/// The skewed mix before it is shuffled, from the lengths of its two runs and
/// the values that were drawn for it.
pub fn nonuniform_layout(zeros: usize, ones: usize, high: &[Fq], low: &[Fq], rest: &[Fq]) -> (out: Vec<
    Fq,
>)
    requires
        zeros + ones + high@.len() * 10_000 + low@.len() * 1_000 + rest@.len() <= usize::MAX,
    ensures
        is_nonuniform_layout(out@, zeros as int, ones as int, high@, low@, rest@),
{
    let mut out: Vec<Fq> = Vec::new();
    push_repeated(&mut out, Fq::zero(), zeros);
    push_repeated(&mut out, Fq::one(), ones);
    push_each_repeated(&mut out, high, HIGH_FREQ_REPEATS);
    push_each_repeated(&mut out, low, LOW_FREQ_REPEATS);
    let ghost a = zeros as int;
    let ghost b = a + ones;
    let ghost c = b + high@.len() * 10_000;
    let ghost d = c + low@.len() * 1_000;
    let mut i: usize = 0;
    while i < rest.len()
        invariant
            i <= rest@.len(),
            a == zeros,
            b == a + ones,
            c == b + high@.len() * 10_000,
            d == c + low@.len() * 1_000,
            d + rest@.len() <= usize::MAX,
            out.len() == d + i,
            forall|k: int| 0 <= k < a ==> (#[trigger] out[k]).value() == 0,
            forall|k: int| a <= k < b ==> (#[trigger] out[k]).value() == 1,
            forall|k: int| b <= k < c ==> #[trigger] out[k] == high[(k - b) / 10_000],
            forall|k: int| c <= k < d ==> #[trigger] out[k] == low[(k - c) / 1_000],
            forall|k: int| d <= k < out.len() ==> #[trigger] out[k] == rest[k - d],
        decreases rest@.len() - i,
    {
        out.push(rest[i]);
        i += 1;
    }
    out
}

/// A scalar distribution that models a realistic witness: a run of zeros and
/// a run of ones, a few values that occur very often, more values that occur
/// often, random values for the remainder, and all of it in random order.
///
/// [`mix_plan_of`] says how many scalars of each kind a mix of `len` scalars
/// has. The plan accounts for every length, so the check of the length at
/// the end never fails.
pub fn generate_nonuniform_scalars(len: usize) -> (r: Result<Vec<Fq>, Error>)
    ensures
        r matches Ok(v) && v.len() == len && is_nonuniform_mix(v@, len as nat),
{
    let plan = MixPlan::new(len);
    let mut rng = rng_from_entropy();
    let high = random_scalars(&mut rng, plan.high_values);
    let low = random_scalars(&mut rng, plan.low_values);
    let rest = random_scalars(&mut rng, plan.rest);
    let mut scalars = nonuniform_layout(
        plan.zeros,
        plan.ones,
        high.as_slice(),
        low.as_slice(),
        rest.as_slice(),
    );
    let ghost layout = scalars@;
    shuffle(&mut scalars, &mut rng);
    proof {
        broadcast use vstd::seq_lib::group_to_multiset_ensures;

        assert(is_nonuniform_layout(
            layout,
            mix_plan_of(len as nat).zeros as int,
            mix_plan_of(len as nat).ones as int,
            high@,
            low@,
            rest@,
        ));
        assert(scalars@.len() == scalars@.to_multiset().len());
        assert(layout.len() == layout.to_multiset().len());
    }
    if scalars.len() != len {
        return Err(Error::LengthInvariantViolated);
    }
    Ok(scalars)
}

/// The sum of `scalars[i]` times `points[i]` over all `i`, added up from the
/// left, starting at the point at infinity.
pub open spec fn msm_sum(points: Seq<Affine>, scalars: Seq<Fq>) -> Point
    decreases points.len(),
{
    if points.len() == 0 {
        Point::identity_spec()
    } else {
        curve_add(
            msm_sum(points.drop_last(), scalars.drop_last()),
            curve_mul(points.last(), scalars.last()),
        )
    }
}

/// The multi-scalar product by the plain method, for checking faster ones
/// against: every product `scalars[i] * points[i]` is computed on the thread
/// pool, and the products are added up in the order of their indices.
pub fn naive_multiscalar_mul(points: &[Affine], scalars: &[Fq]) -> (r: Result<Affine, Error>)
    ensures
        points.len() != scalars.len() ==> r == Err::<Affine, Error>(Error::ShapeMismatch),
        points.len() == scalars.len() ==> (r matches Ok(sum) && is_affine_form_of(
            sum,
            msm_sum(points@, scalars@),
        )),
{
    if points.len() != scalars.len() {
        return Err(Error::ShapeMismatch);
    }
    let n = points.len();
    let task = |i: usize| -> (p: Point)
        requires
            i < n,
        ensures
            p == curve_mul(points@[i as int], scalars@[i as int]),
            p.is_valid(),
        {
            let point = &points[i];
            proof {
                use_type_invariant(point);
            }
            point_mul(point, &scalars[i])
        };
    let products = par_map_range(n, task);
    let mut acc = Point::identity();
    let mut i: usize = 0;
    while i < n
        invariant
            i <= n,
            n == points.len(),
            n == scalars.len(),
            products.len() == n,
            forall|k: int|
                0 <= k < n ==> (#[trigger] products[k]) == curve_mul(points@[k], scalars@[k])
                    && products[k].is_valid(),
            acc.is_valid(),
            acc == msm_sum(points@.take(i as int), scalars@.take(i as int)),
        decreases n - i,
    {
        acc = point_add(&acc, &products[i]);
        proof {
            let p = points@.take(i + 1);
            let s = scalars@.take(i + 1);
            assert(p.drop_last() == points@.take(i as int));
            assert(s.drop_last() == scalars@.take(i as int));
        }
        i += 1;
    }
    proof {
        assert(points@.take(n as int) == points@);
        assert(scalars@.take(n as int) == scalars@);
    }
    Ok(acc.to_affine())
}

} // verus!
