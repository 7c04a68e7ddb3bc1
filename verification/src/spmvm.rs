//! Flat descriptions of a sparse matrix and of a split witness, in the shape
//! in which an accelerator takes them, and the shape checks that precede a call.

#![allow(non_snake_case)]

use crate::error::Error;
use vstd::prelude::*;

verus! {

/// A borrowed matrix in compressed-row form: the non-zero values, their
/// column indices, and for each row the offset at which it starts.
pub struct CudaSparseMatrix<'a, F> {
    pub data: &'a [F],
    pub col_idx: &'a [usize],
    pub row_ptr: &'a [usize],
    pub num_rows: usize,
    pub num_cols: usize,
    pub nnz: usize,
}

impl<'a, F> CudaSparseMatrix<'a, F> {
    /// Every value has a column index, and every row a start and an end.
    pub open spec fn is_consistent(&self) -> bool {
        &&& self.data@.len() == self.col_idx@.len()
        &&& self.row_ptr@.len() == self.num_rows + 1
        &&& self.nnz == self.data@.len()
    }

    /// Whether every value has a column index, and every row a start and an
    /// end: what [`new`](Self::new) asks of the three slices.
    pub fn check(&self) -> (b: bool)
        ensures
            b == self.is_consistent(),
    {
        let offsets = self.row_ptr.len();
        let values = self.data.len();
        values == self.col_idx.len() && offsets > 0 && offsets - 1 == self.num_rows && self.nnz == values
    }

    /// Describes the matrix held in the three slices.
    pub fn new(
        data: &'a [F],
        col_idx: &'a [usize],
        row_ptr: &'a [usize],
        num_rows: usize,
        num_cols: usize,
    ) -> (r: Self)
        requires
            data@.len() == col_idx@.len(),
            row_ptr@.len() == num_rows + 1,
        ensures
            r.data@ == data@,
            r.col_idx@ == col_idx@,
            r.row_ptr@ == row_ptr@,
            r.num_rows == num_rows,
            r.num_cols == num_cols,
            r.nnz == data@.len(),
            r.is_consistent(),
    {
        let nnz = data.len();
        CudaSparseMatrix { data, col_idx, row_ptr, num_rows, num_cols, nnz }
    }
}

/// A borrowed witness vector in three segments, which stand for the vector
/// `[W, u, U]`.
pub struct CudaWitness<'a, F> {
    pub W: &'a [F],
    pub u: &'a F,
    pub U: &'a [F],
    pub nW: usize,
    pub nU: usize,
}

impl<'a, F> CudaWitness<'a, F> {
    /// The two lengths are those of the two segments.
    pub open spec fn is_consistent(&self) -> bool {
        self.nW == self.W@.len() && self.nU == self.U@.len()
    }

    /// Whether the two lengths are those of the two segments.
    pub fn check(&self) -> (b: bool)
        ensures
            b == self.is_consistent(),
    {
        self.nW == self.W.len() && self.nU == self.U.len()
    }

    /// Describes the witness held in the two slices and the scalar between them.
    pub fn new(W: &'a [F], u: &'a F, U: &'a [F]) -> (r: Self)
        ensures
            r.W@ == W@,
            *r.u == *u,
            r.U@ == U@,
            r.nW == W@.len(),
            r.nU == U@.len(),
            r.is_consistent(),
    {
        let nW = W.len();
        let nU = U.len();
        CudaWitness { W, u, U, nW, nU }
    }
}

/// Whether a witness fits a matrix: the lengths of its segments and the one
/// scalar between them must add up to the number of columns.
pub fn check_witness_shape<F>(csr: &CudaSparseMatrix<F>, witness: &CudaWitness<F>) -> (r: Result<
    (),
    Error,
>)
    ensures
        witness.nW + witness.nU + 1 == csr.num_cols ==> r is Ok,
        witness.nW + witness.nU + 1 != csr.num_cols ==> r == Err::<(), Error>(
            Error::WitnessShapeMismatch,
        ),
{
    let fits = match witness.nW.checked_add(witness.nU) {
        Some(segments) => match segments.checked_add(1) {
            Some(total) => total == csr.num_cols,
            None => false,
        },
        None => false,
    };
    if fits {
        Ok(())
    } else {
        Err(Error::WitnessShapeMismatch)
    }
}

/// Whether the product of a matrix with a witness can be written to a buffer
/// of `buffer_len` entries: the witness must fit the matrix, and the buffer
/// must have room for one entry for each row.
pub fn check_witness_call<F>(
    csr: &CudaSparseMatrix<F>,
    witness: &CudaWitness<F>,
    buffer_len: usize,
) -> (r: Result<(), Error>)
    ensures
        witness.nW + witness.nU + 1 != csr.num_cols ==> r == Err::<(), Error>(
            Error::WitnessShapeMismatch,
        ),
        witness.nW + witness.nU + 1 == csr.num_cols && buffer_len < csr.num_rows ==> r == Err::<
            (),
            Error,
        >(Error::ShapeMismatch),
        witness.nW + witness.nU + 1 == csr.num_cols && buffer_len >= csr.num_rows ==> r is Ok,
{
    match check_witness_shape(csr, witness) {
        Ok(()) => {
            if buffer_len < csr.num_rows {
                Err(Error::ShapeMismatch)
            } else {
                Ok(())
            }
        },
        Err(e) => Err(e),
    }
}

/// Whether a dense vector fits a matrix: it must have one entry for each column.
pub fn check_vector_shape<F>(csr: &CudaSparseMatrix<F>, scalars: &[F]) -> (r: Result<(), Error>)
    ensures
        scalars@.len() == csr.num_cols ==> r is Ok,
        scalars@.len() != csr.num_cols ==> r == Err::<(), Error>(Error::ShapeMismatch),
{
    if scalars.len() == csr.num_cols {
        Ok(())
    } else {
        Err(Error::ShapeMismatch)
    }
}

} // verus!
