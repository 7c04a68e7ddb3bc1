use pasta_msm::error::Error;
use pasta_msm::field::{FieldElement, Fq};
use pasta_msm::spmvm::{
    check_vector_shape, check_witness_call, check_witness_shape, CudaSparseMatrix, CudaWitness,
};
use pasta_msm::utils::SparseMatrix;

fn word(x: u64) -> [u8; 32] {
    let mut bytes = [0u8; 32];
    bytes[..8].copy_from_slice(&x.to_le_bytes());
    bytes
}

fn fq(x: u64) -> Fq {
    Fq::from_bytes(word(x)).unwrap()
}

#[test]
fn descriptor_borrows_the_three_slices() {
    let data = vec![fq(1), fq(2), fq(3)];
    let col_idx = vec![0, 2, 1];
    let row_ptr = vec![0, 2, 3];
    let csr = CudaSparseMatrix::new(&data, &col_idx, &row_ptr, 2, 3);
    assert_eq!(csr.data, &data[..]);
    assert_eq!(csr.col_idx, &col_idx[..]);
    assert_eq!(csr.row_ptr, &row_ptr[..]);
    assert_eq!(csr.num_rows, 2);
    assert_eq!(csr.num_cols, 3);
    assert_eq!(csr.nnz, 3);
}

#[test]
fn descriptor_of_a_sparse_matrix() {
    let coo = vec![(0, 0, fq(1)), (0, 2, fq(2)), (2, 1, fq(3))];
    let m = SparseMatrix::new(&coo, 3, 4).unwrap();
    let csr = CudaSparseMatrix::new(&m.data, &m.indices, &m.indptr, 3, 4);
    assert_eq!(csr.nnz, m.len());
    assert_eq!(csr.row_ptr.len(), csr.num_rows + 1);
}

#[test]
fn descriptor_of_an_empty_matrix() {
    let data: Vec<Fq> = vec![];
    let csr = CudaSparseMatrix::new(&data, &[], &[0], 0, 0);
    assert_eq!(csr.nnz, 0);
    assert_eq!(csr.num_rows, 0);
}

#[test]
fn witness_records_the_segment_lengths() {
    let w = vec![fq(1), fq(2)];
    let u = Fq::one();
    let x = vec![fq(3), fq(4), fq(5)];
    let witness = CudaWitness::new(&w, &u, &x);
    assert_eq!(witness.nW, 2);
    assert_eq!(witness.nU, 3);
    assert_eq!(witness.W, &w[..]);
    assert_eq!(*witness.u, u);
    assert_eq!(witness.U, &x[..]);
    let none = CudaWitness::new(&[], &u, &[]);
    assert_eq!((none.nW, none.nU), (0, 0));
}

#[test]
fn witness_must_fill_the_columns() {
    let data = vec![fq(1)];
    let w = vec![fq(1), fq(2)];
    let u = Fq::one();
    let x = vec![fq(3), fq(4), fq(5)];
    let witness = CudaWitness::new(&w, &u, &x);
    let fits = CudaSparseMatrix::new(&data, &[0], &[0, 1], 1, 6);
    assert_eq!(check_witness_shape(&fits, &witness), Ok(()));
    let narrow = CudaSparseMatrix::new(&data, &[0], &[0, 1], 1, 5);
    assert_eq!(check_witness_shape(&narrow, &witness), Err(Error::WitnessShapeMismatch));
    let wide = CudaSparseMatrix::new(&data, &[0], &[0, 1], 1, 7);
    assert_eq!(check_witness_shape(&wide, &witness), Err(Error::WitnessShapeMismatch));
    let only_u = CudaWitness::new(&[], &u, &[]);
    let one = CudaSparseMatrix::new(&data, &[0], &[0, 1], 1, 1);
    assert_eq!(check_witness_shape(&one, &only_u), Ok(()));
    let none = CudaSparseMatrix::new(&data, &[0], &[0, 1], 1, 0);
    assert_eq!(check_witness_shape(&none, &only_u), Err(Error::WitnessShapeMismatch));
}

#[test]
fn witness_lengths_that_overflow_do_not_fit() {
    let data = vec![fq(1)];
    let u = Fq::one();
    let mut witness = CudaWitness::new(&[], &u, &[]);
    witness.nW = usize::MAX;
    witness.nU = 1;
    let csr = CudaSparseMatrix::new(&data, &[0], &[0, 1], 1, 1);
    assert_eq!(check_witness_shape(&csr, &witness), Err(Error::WitnessShapeMismatch));
    witness.nU = 0;
    let zero = CudaSparseMatrix::new(&data, &[0], &[0, 1], 1, 0);
    assert_eq!(check_witness_shape(&zero, &witness), Err(Error::WitnessShapeMismatch));
}

#[test]
fn witness_call_needs_room_for_every_row() {
    let data = vec![fq(1), fq(2)];
    let w = vec![fq(1)];
    let u = Fq::one();
    let witness = CudaWitness::new(&w, &u, &[]);
    let csr = CudaSparseMatrix::new(&data, &[0, 1], &[0, 1, 1, 2], 3, 2);
    assert_eq!(check_witness_call(&csr, &witness, 3), Ok(()));
    assert_eq!(check_witness_call(&csr, &witness, 4), Ok(()));
    assert_eq!(check_witness_call(&csr, &witness, 2), Err(Error::ShapeMismatch));
    assert_eq!(check_witness_call(&csr, &witness, 0), Err(Error::ShapeMismatch));
    let narrow = CudaSparseMatrix::new(&data, &[0, 1], &[0, 1, 1, 2], 3, 1);
    assert_eq!(check_witness_call(&narrow, &witness, 3), Err(Error::WitnessShapeMismatch));
    assert_eq!(check_witness_call(&narrow, &witness, 0), Err(Error::WitnessShapeMismatch));
}

#[test]
fn descriptors_tell_whether_their_lengths_fit() {
    let data = vec![fq(1), fq(2)];
    let mut csr = CudaSparseMatrix::new(&data, &[0, 1], &[0, 1, 2], 2, 2);
    assert!(csr.check());
    csr.nnz = 3;
    assert!(!csr.check());
    csr.nnz = 2;
    csr.num_rows = 3;
    assert!(!csr.check());
    csr.num_rows = usize::MAX;
    assert!(!csr.check());
    csr.num_rows = 2;
    csr.col_idx = &[0];
    assert!(!csr.check());
    let u = Fq::one();
    let mut witness = CudaWitness::new(&data, &u, &[]);
    assert!(witness.check());
    witness.nU = 1;
    assert!(!witness.check());
    witness.nU = 0;
    witness.nW = 1;
    assert!(!witness.check());
}

#[test]
fn vector_must_have_one_entry_for_each_column() {
    let data = vec![fq(1)];
    let csr = CudaSparseMatrix::new(&data, &[0], &[0, 1], 1, 2);
    assert_eq!(check_vector_shape(&csr, &[fq(1), fq(2)]), Ok(()));
    assert_eq!(check_vector_shape(&csr, &[fq(1)]), Err(Error::ShapeMismatch));
    assert_eq!(check_vector_shape(&csr, &[fq(1), fq(2), fq(3)]), Err(Error::ShapeMismatch));
}

#[test]
fn errors_describe_themselves() {
    assert_eq!(Error::ShapeMismatch.describe(), "length mismatch");
    assert_eq!(Error::WitnessShapeMismatch.describe(), "invalid witness size");
    assert_eq!(
        Error::AcceleratorFailure { code: 3, message: "device lost".to_string() }.describe(),
        "device lost"
    );
    assert!(Error::MalformedMatrix.describe() != Error::LengthInvariantViolated.describe());
    assert!(Error::InitializationFailed.describe() != Error::LengthInvariantViolated.describe());
}
