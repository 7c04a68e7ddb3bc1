use pasta_curves::group::ff::{Field, PrimeField};
use pasta_msm::error::Error;
use pasta_msm::field::{FieldElement, Fp, Fq};
use pasta_msm::utils::SparseMatrix;
use rand::Rng;
use rand::SeedableRng;

fn word(x: u64) -> [u8; 32] {
    let mut bytes = [0u8; 32];
    bytes[..8].copy_from_slice(&x.to_le_bytes());
    bytes
}

fn fq(x: u64) -> Fq {
    Fq::from_bytes(word(x)).unwrap()
}

fn fp(x: u64) -> Fp {
    Fp::from_bytes(word(x)).unwrap()
}

fn lift(x: &pasta_curves::Fq) -> Fq {
    Fq::from_bytes(x.to_repr()).unwrap()
}

/// The 3x4 matrix
///   1 0 2 0
///   0 0 0 0
///   0 3 0 4
fn small() -> SparseMatrix<Fq> {
    let coo = vec![(0, 0, fq(1)), (0, 2, fq(2)), (2, 1, fq(3)), (2, 3, fq(4))];
    SparseMatrix::new(&coo, 3, 4).unwrap()
}

#[test]
fn empty_matrix_has_one_offset() {
    let m = SparseMatrix::<Fq>::empty();
    assert_eq!(m.data, vec![]);
    assert_eq!(m.indices, vec![]);
    assert_eq!(m.indptr, vec![0]);
    assert_eq!(m.cols, 0);
    assert_eq!(m.len(), 0);
    assert!(m.is_empty());
    assert_eq!(m.validate(), Ok(()));
}

#[test]
fn empty_matrix_times_empty_vector() {
    let m = SparseMatrix::<Fq>::empty();
    assert_eq!(m.multiply_vec(&[]), Ok(vec![]));
    assert_eq!(m.multiply_vec(&[fq(1)]), Err(Error::ShapeMismatch));
}

#[test]
fn empty_matrix_yields_no_triple() {
    let m = SparseMatrix::<Fq>::empty();
    let mut it = m.iter();
    assert_eq!(it.next(), None);
    assert_eq!(it.next(), None);
    assert_eq!(m.iter().collect(), vec![]);
}

#[test]
fn new_builds_compressed_rows() {
    let m = small();
    assert_eq!(m.data, vec![fq(1), fq(2), fq(3), fq(4)]);
    assert_eq!(m.indices, vec![0, 2, 1, 3]);
    assert_eq!(m.indptr, vec![0, 2, 2, 4]);
    assert_eq!(m.cols, 4);
    assert_eq!(m.len(), 4);
    assert!(!m.is_empty());
    assert_eq!(m.validate(), Ok(()));
}

#[test]
fn new_with_no_entries() {
    let m = SparseMatrix::<Fq>::new(&[], 3, 2).unwrap();
    assert_eq!(m.indptr, vec![0, 0, 0, 0]);
    assert_eq!(m.cols, 2);
    assert!(m.is_empty());
    assert_eq!(m.multiply_vec(&[fq(5), fq(6)]), Ok(vec![fq(0), fq(0), fq(0)]));
    assert_eq!(m.iter().collect(), vec![]);
    let m = SparseMatrix::<Fq>::new(&[], 0, 0).unwrap();
    assert_eq!(m, SparseMatrix::empty());
}

#[test]
fn new_groups_rows_that_come_out_of_order() {
    let coo = vec![(2, 1, fq(3)), (0, 0, fq(1)), (2, 3, fq(4)), (0, 2, fq(2))];
    assert_eq!(SparseMatrix::new(&coo, 3, 4), Ok(small()));
}

#[test]
fn new_refuses_columns_that_do_not_increase() {
    let coo = vec![(0, 2, fq(1)), (0, 1, fq(2))];
    assert_eq!(SparseMatrix::new(&coo, 1, 3), Err(Error::MalformedMatrix));
    let coo = vec![(0, 2, fq(1)), (1, 0, fq(5)), (0, 1, fq(2))];
    assert_eq!(SparseMatrix::new(&coo, 2, 3), Err(Error::MalformedMatrix));
}

#[test]
fn new_refuses_a_column_named_twice() {
    let coo = vec![(1, 1, fq(1)), (1, 1, fq(2))];
    assert_eq!(SparseMatrix::new(&coo, 2, 2), Err(Error::MalformedMatrix));
}

#[test]
fn new_refuses_a_row_that_the_matrix_does_not_have() {
    assert_eq!(SparseMatrix::new(&[(2, 0, fq(1))], 2, 2), Err(Error::MalformedMatrix));
    assert_eq!(SparseMatrix::new(&[(0, 0, fq(1))], 0, 0), Err(Error::MalformedMatrix));
    assert!(SparseMatrix::new(&[(1, 1, fq(1))], 2, 2).is_ok());
}

#[test]
fn new_does_not_hold_the_columns_against_the_list() {
    let coo = vec![(0, 5, fq(1))];
    let m = SparseMatrix::new(&coo, 1, 2).unwrap();
    assert_eq!(m.data, vec![fq(1)]);
    assert_eq!(m.indices, vec![5]);
    assert_eq!(m.indptr, vec![0, 1]);
    assert_eq!(m.cols, 2);
    assert_eq!(m.len(), 1);
    assert_eq!(m.validate(), Ok(()));
    assert!(!m.check_columns());
    assert_eq!(m.iter().collect(), coo);
    let coo = vec![(0, 1, fq(1)), (0, 7, fq(2)), (1, 0, fq(3)), (1, 9, fq(4))];
    let m = SparseMatrix::new(&coo, 2, 3).unwrap();
    assert_eq!(m.indptr, vec![0, 2, 4]);
    assert_eq!(m.iter().collect(), coo);
    assert!(!m.check_columns());
    assert!(SparseMatrix::new(&coo, 2, 10).unwrap().check_columns());
    assert_eq!(SparseMatrix::new(&[(0, 7, fq(2)), (0, 1, fq(1))], 1, 3), Err(Error::MalformedMatrix));
}

#[test]
fn multiply_small_matrix() {
    let m = small();
    let v = vec![fq(10), fq(20), fq(30), fq(40)];
    // 1*10 + 2*30, nothing, 3*20 + 4*40
    assert_eq!(m.multiply_vec(&v), Ok(vec![fq(70), fq(0), fq(220)]));
    assert_eq!(m.multiply_vec_unchecked(&v), vec![fq(70), fq(0), fq(220)]);
}

#[test]
fn multiply_over_the_other_field() {
    let coo = vec![(0, 0, fp(2)), (0, 1, fp(3)), (1, 1, fp(7))];
    let m = SparseMatrix::new(&coo, 2, 2).unwrap();
    assert_eq!(m.multiply_vec(&[fp(5), fp(11)]), Ok(vec![fp(43), fp(77)]));
}

#[test]
fn multiply_reduces_modulo_the_field_order() {
    let top = lift(&-pasta_curves::Fq::ONE);
    let coo = vec![(0, 0, top), (0, 1, top)];
    let m = SparseMatrix::new(&coo, 1, 2).unwrap();
    // (-1)(-1) + (-1)(2) = -1
    assert_eq!(m.multiply_vec(&[top, fq(2)]), Ok(vec![top]));
}

#[test]
fn multiply_refuses_a_vector_of_another_length() {
    let m = small();
    let short = vec![fq(1); 3];
    let long = vec![fq(1); 5];
    assert_eq!(m.multiply_vec(&short), Err(Error::ShapeMismatch));
    assert_eq!(m.multiply_vec(&long), Err(Error::ShapeMismatch));
    assert_eq!(m.multiply_vec(&[]), Err(Error::ShapeMismatch));
    assert!(m.multiply_vec(&vec![fq(1); 4]).is_ok());
}

#[test]
fn multiply_agrees_with_the_dense_product() {
    let mut rng = rand_chacha::ChaCha20Rng::seed_from_u64(7);
    for round in 0..40 {
        let rows: usize = if round == 0 { 1 } else { rng.gen_range(1..=200) };
        let cols: usize = if round == 0 { 1 } else if round == 1 { 200 } else { rng.gen_range(1..=200) };
        let mut dense = vec![vec![pasta_curves::Fq::ZERO; cols]; rows];
        let mut coo = Vec::new();
        for r in 0..rows {
            for c in 0..cols {
                if rng.gen_range(0..4) == 0 {
                    let value = pasta_curves::Fq::random(&mut rng);
                    dense[r][c] = value;
                    coo.push((r, c, lift(&value)));
                }
            }
        }
        let vector: Vec<pasta_curves::Fq> = (0..cols).map(|_| pasta_curves::Fq::random(&mut rng)).collect();
        let expected: Vec<Fq> = dense
            .iter()
            .map(|row| {
                let sum: pasta_curves::Fq = row.iter().zip(vector.iter()).map(|(a, b)| a * b).sum();
                lift(&sum)
            })
            .collect();
        let m = SparseMatrix::new(&coo, rows, cols).unwrap();
        assert_eq!(m.len(), coo.len());
        let lifted: Vec<Fq> = vector.iter().map(lift).collect();
        assert_eq!(m.multiply_vec(&lifted), Ok(expected));
        let one_less = &lifted[..cols - 1];
        assert_eq!(m.multiply_vec(one_less), Err(Error::ShapeMismatch));
        let mut one_more = lifted.clone();
        one_more.push(fq(1));
        assert_eq!(m.multiply_vec(&one_more), Err(Error::ShapeMismatch));
        assert_eq!(m.iter().collect(), coo);
    }
}

#[test]
fn iter_yields_the_triples_in_row_major_order() {
    let m = small();
    let mut it = m.iter();
    assert_eq!(it.next(), Some((0, 0, fq(1))));
    assert_eq!(it.next(), Some((0, 2, fq(2))));
    assert_eq!(it.next(), Some((2, 1, fq(3))));
    assert_eq!(it.next(), Some((2, 3, fq(4))));
    assert_eq!(it.next(), None);
    assert_eq!(it.next(), None);
}

#[test]
fn iter_skips_leading_empty_rows() {
    let coo = vec![(3, 0, fq(9)), (3, 1, fq(8)), (5, 1, fq(7))];
    let m = SparseMatrix::new(&coo, 7, 2).unwrap();
    assert_eq!(m.indptr, vec![0, 0, 0, 0, 2, 2, 3, 3]);
    assert_eq!(m.iter().collect(), coo);
}

#[test]
fn iter_matches_a_scan_of_the_offsets() {
    let coo = vec![(1, 4, fq(1)), (1, 5, fq(2)), (2, 0, fq(3)), (4, 2, fq(4)), (4, 3, fq(5)), (4, 9, fq(6))];
    let m = SparseMatrix::new(&coo, 6, 10).unwrap();
    let mut scanned = Vec::new();
    for r in 0..m.indptr.len() - 1 {
        for k in m.indptr[r]..m.indptr[r + 1] {
            scanned.push((r, m.indices[k], m.data[k]));
        }
    }
    let walked = m.iter().collect();
    assert_eq!(walked.len(), m.len());
    assert_eq!(walked, scanned);
}

#[test]
fn collect_gives_what_is_left() {
    let m = small();
    let mut it = m.iter();
    it.next();
    assert_eq!(it.collect(), vec![(0, 2, fq(2)), (2, 1, fq(3)), (2, 3, fq(4))]);
}

#[test]
fn get_row_unchecked_pairs_values_with_columns() {
    let m = small();
    assert_eq!(m.get_row_unchecked(&[0, 2]), vec![(fq(1), 0), (fq(2), 2)]);
    assert_eq!(m.get_row_unchecked(&[2, 2]), vec![]);
    assert_eq!(m.get_row_unchecked(&[2, 4]), vec![(fq(3), 1), (fq(4), 3)]);
    assert_eq!(m.get_row_unchecked(&[1, 3]), vec![(fq(2), 2), (fq(3), 1)]);
}

#[test]
fn clone_is_a_deep_copy() {
    let m = small();
    let mut copy = m.clone();
    assert_eq!(copy, m);
    copy.data[0] = fq(99);
    assert_eq!(m.data[0], fq(1));
    let coo: Vec<(usize, usize, Fq)> = (0..5000).map(|i| (i / 10, i % 10, fq(i as u64))).collect();
    let big = SparseMatrix::new(&coo, 500, 10).unwrap();
    assert_eq!(big.clone(), big);
}

#[test]
fn validate_tells_a_broken_matrix() {
    let good = small();
    assert!(good.check_csr());
    assert!(good.check_increasing_columns());
    let mut m = small();
    m.indptr = vec![];
    assert!(!m.check_csr());
    assert_eq!(m.validate(), Err(Error::MalformedMatrix));
    let mut m = small();
    m.indptr = vec![1, 2, 2, 4];
    assert!(!m.check_csr());
    let mut m = small();
    m.indptr = vec![0, 2, 2, 3];
    assert!(!m.check_csr());
    let mut m = small();
    m.indptr = vec![0, 3, 2, 4];
    assert!(!m.check_csr());
    let mut m = small();
    m.indices = vec![0, 2, 1];
    assert!(!m.check_csr());
    let mut m = small();
    m.cols = 3;
    assert!(m.check_csr());
    assert!(!m.check_columns());
    assert_eq!(m.validate(), Ok(()));
    assert!(small().check_columns());
    let mut m = small();
    m.indices = vec![2, 0, 1, 3];
    assert!(m.check_csr());
    assert!(!m.check_increasing_columns());
    assert_eq!(m.validate(), Err(Error::MalformedMatrix));
    let mut m = small();
    m.indices = vec![0, 0, 1, 3];
    assert!(!m.check_increasing_columns());
}

#[test]
fn unsorted_columns_still_multiply() {
    // a matrix put together by hand, with the columns of row 0 out of order
    let m = SparseMatrix { data: vec![fq(2), fq(1)], indices: vec![2, 0], indptr: vec![0, 2], cols: 3 };
    assert!(m.check_csr());
    assert_eq!(m.multiply_vec(&[fq(10), fq(20), fq(30)]), Ok(vec![fq(70)]));
}

#[test]
fn large_matrix_rows_come_back_in_order() {
    let rows = 20_000;
    let coo: Vec<(usize, usize, Fq)> = (0..rows).map(|r| (r, r % 3, fq(r as u64 + 1))).collect();
    let m = SparseMatrix::new(&coo, rows, 3).unwrap();
    let out = m.multiply_vec(&[fq(1), fq(2), fq(3)]).unwrap();
    assert_eq!(out.len(), rows);
    for r in 0..rows {
        assert_eq!(out[r], fq((r as u64 + 1) * (r as u64 % 3 + 1)));
    }
}

#[test]
fn multiply_witness_reads_the_three_segments_as_one_vector() {
    let m = small();
    let whole = m.multiply_vec(&[fq(10), fq(20), fq(30), fq(40)]);
    assert_eq!(m.multiply_witness(&[fq(10)], &fq(20), &[fq(30), fq(40)]), whole);
    assert_eq!(m.multiply_witness(&[], &fq(10), &[fq(20), fq(30), fq(40)]), whole);
    assert_eq!(m.multiply_witness(&[fq(10), fq(20), fq(30)], &fq(40), &[]), whole);
    assert_eq!(whole, Ok(vec![fq(70), fq(0), fq(220)]));
}

#[test]
fn multiply_witness_refuses_segments_that_do_not_fill_the_columns() {
    let m = small();
    assert_eq!(m.multiply_witness(&[fq(10)], &fq(20), &[fq(30)]), Err(Error::WitnessShapeMismatch));
    assert_eq!(
        m.multiply_witness(&[fq(10), fq(1)], &fq(20), &[fq(30), fq(40)]),
        Err(Error::WitnessShapeMismatch)
    );
    assert_eq!(SparseMatrix::<Fq>::empty().multiply_witness(&[], &fq(1), &[]), Err(Error::WitnessShapeMismatch));
}
