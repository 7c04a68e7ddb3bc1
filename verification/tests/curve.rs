use pasta_curves::arithmetic::{CurveAffine, CurveExt};
use pasta_curves::group::ff::{Field, PrimeField};
use pasta_curves::group::prime::PrimeCurveAffine;
use pasta_curves::group::{Curve, Group};
use pasta_msm::curve::{Affine, Point};
use pasta_msm::error::Error;
use pasta_msm::field::{FieldElement, Fp, Fq};
use pasta_msm::utils::{gen_points, gen_scalars, naive_multiscalar_mul, points_from_bytes};
use rand::SeedableRng;

fn word(x: u64) -> [u8; 32] {
    let mut bytes = [0u8; 32];
    bytes[..8].copy_from_slice(&x.to_le_bytes());
    bytes
}

fn fp(x: u64) -> Fp {
    Fp::from_bytes(word(x)).unwrap()
}

fn fq(x: u64) -> Fq {
    Fq::from_bytes(word(x)).unwrap()
}

fn lower(p: &Affine) -> Option<pasta_curves::EpAffine> {
    let (x, y) = p.coordinates();
    let x = pasta_curves::Fp::from_repr(x.to_bytes()).unwrap();
    let y = pasta_curves::Fp::from_repr(y.to_bytes()).unwrap();
    Option::from(pasta_curves::EpAffine::from_xy(x, y))
}

fn lift(p: &pasta_curves::EpAffine) -> Affine {
    let (x, y, _) = p.to_curve().jacobian_coordinates();
    let x = Fp::from_bytes(x.to_repr()).unwrap();
    let y = Fp::from_bytes(y.to_repr()).unwrap();
    Affine::from_xy(x, y).unwrap()
}

fn lift_scalar(s: &pasta_curves::Fq) -> Fq {
    Fq::from_bytes(s.to_repr()).unwrap()
}

fn generator() -> Affine {
    lift(&pasta_curves::EpAffine::generator())
}

#[test]
fn from_xy_accepts_points_of_the_curve() {
    // (-1)^3 + 5 = 2^2
    let minus_one = Fp::from_bytes((-pasta_curves::Fp::ONE).to_repr()).unwrap();
    let p = Affine::from_xy(minus_one, fp(2)).unwrap();
    assert_eq!(p.coordinates(), (minus_one, fp(2)));
    assert_eq!(p, generator());
}

#[test]
fn from_xy_refuses_other_pairs() {
    assert_eq!(Affine::from_xy(fp(1), fp(1)), None);
    assert_eq!(Affine::from_xy(fp(0), fp(1)), None);
    assert_eq!(Affine::from_xy(fp(2), fp(2)), None);
}

#[test]
fn the_point_at_infinity_is_the_origin() {
    let id = Affine::identity();
    assert_eq!(id.coordinates(), (fp(0), fp(0)));
    assert_eq!(Affine::from_xy(fp(0), fp(0)), Some(id));
    assert_eq!(Point::identity().to_affine(), id);
    assert!(bool::from(lower(&id).unwrap().is_identity()));
}

#[test]
fn naive_multiscalar_mul_of_nothing_is_the_point_at_infinity() {
    assert_eq!(naive_multiscalar_mul(&[], &[]), Ok(Affine::identity()));
}

#[test]
fn naive_multiscalar_mul_refuses_unequal_lengths() {
    let g = generator();
    assert_eq!(naive_multiscalar_mul(&[g], &[]), Err(Error::ShapeMismatch));
    assert_eq!(naive_multiscalar_mul(&[], &[fq(1)]), Err(Error::ShapeMismatch));
    assert_eq!(naive_multiscalar_mul(&[g, g], &[fq(1)]), Err(Error::ShapeMismatch));
}

#[test]
fn naive_multiscalar_mul_by_small_scalars() {
    let g = generator();
    let pg = pasta_curves::Ep::generator();
    assert_eq!(naive_multiscalar_mul(&[g], &[fq(1)]), Ok(g));
    assert_eq!(naive_multiscalar_mul(&[g], &[fq(0)]), Ok(Affine::identity()));
    assert_eq!(naive_multiscalar_mul(&[g], &[fq(2)]), Ok(lift(&pg.double().to_affine())));
    assert_eq!(naive_multiscalar_mul(&[g, g], &[fq(2), fq(3)]), naive_multiscalar_mul(&[g], &[fq(5)]));
    let twice = naive_multiscalar_mul(&[g], &[fq(2)]).unwrap();
    assert!(twice != g);
    assert_eq!(naive_multiscalar_mul(&[g, twice], &[fq(1), fq(1)]), naive_multiscalar_mul(&[g], &[fq(3)]));
}

#[test]
fn naive_multiscalar_mul_agrees_with_pasta_curves() {
    let mut rng = rand_chacha::ChaCha20Rng::seed_from_u64(11);
    let points: Vec<pasta_curves::EpAffine> = (0..64).map(|_| pasta_curves::Ep::random(&mut rng).to_affine()).collect();
    let scalars: Vec<pasta_curves::Fq> = (0..64).map(|_| pasta_curves::Fq::random(&mut rng)).collect();
    let expected: pasta_curves::Ep = points.iter().zip(scalars.iter()).map(|(p, s)| p * s).sum();
    let lifted_points: Vec<Affine> = points.iter().map(lift).collect();
    let lifted_scalars: Vec<Fq> = scalars.iter().map(lift_scalar).collect();
    let sum = naive_multiscalar_mul(&lifted_points, &lifted_scalars).unwrap();
    assert_eq!(sum, lift(&expected.to_affine()));
}

#[test]
fn naive_sum_of_generated_input_agrees_with_pasta_curves() {
    const NPOINTS: usize = 1024;

    let points = gen_points(NPOINTS);
    let scalars = gen_scalars(NPOINTS);

    let naive = naive_multiscalar_mul(&points, &scalars).unwrap();
    println!("{:?}", naive);

    let lowered_points: Vec<pasta_curves::EpAffine> = points.iter().map(|p| lower(p).unwrap()).collect();
    let lowered_scalars: Vec<pasta_curves::Fq> =
        scalars.iter().map(|s| pasta_curves::Fq::from_repr(s.to_bytes()).unwrap()).collect();
    let direct: pasta_curves::Ep = lowered_points.iter().zip(lowered_scalars.iter()).map(|(p, s)| p * s).sum();
    let ret = lift(&direct.to_affine());
    println!("{:?}", ret);

    assert_eq!(ret, naive);
}

#[test]
fn points_from_bytes_hashes_each_slice() {
    let npoints = 2500;
    let rnd: Vec<u8> = (0..32 * npoints).map(|i| (i * 7 + i / 32) as u8).collect();
    let points = points_from_bytes(&rnd, npoints);
    assert_eq!(points.len(), npoints);
    let hash = pasta_curves::Ep::hash_to_curve("foobar");
    for i in [0, 1, 1023, 1024, 1025, 2047, 2048, 2499] {
        let expected = hash(&rnd[32 * i..32 * i + 32]).to_affine();
        assert_eq!(points[i], lift(&expected));
    }
    assert_eq!(points_from_bytes(&rnd, npoints), points);
    assert_eq!(points_from_bytes(&[], 0), vec![]);
    assert_eq!(points_from_bytes(&rnd[..32], 1), vec![points[0]]);
    assert_eq!(points_from_bytes(&rnd[..32 * 1024], 1024), points[..1024].to_vec());
}

#[test]
fn gen_points_gives_distinct_points_of_the_curve() {
    let n = 10_000;
    let points = gen_points(n);
    assert_eq!(points.len(), n);
    let mut seen = std::collections::HashSet::new();
    for p in points.iter() {
        let lowered = lower(p).unwrap();
        assert!(bool::from(lowered.is_on_curve()));
        assert!(!bool::from(lowered.is_identity()));
        let (x, y) = p.coordinates();
        assert!(seen.insert((x.to_bytes(), y.to_bytes())));
    }
    assert_eq!(seen.len(), n);
}

#[test]
fn gen_points_of_nothing() {
    assert_eq!(gen_points(0), vec![]);
    assert_eq!(gen_points(1).len(), 1);
    assert_eq!(gen_points(1025).len(), 1025);
}
