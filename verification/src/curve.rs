//! Points of the Pallas curve `y^2 = x^3 + 5` over the field of order
//! [`fp_modulus`](crate::field::fp_modulus).
//!
//! A point is held by its coordinates; the group law itself is computed by
//! `pasta_curves`.

use crate::field::{element_of, fp_modulus, lemma_element_of_value, FieldElement, Fp, Fq};
use pasta_curves::arithmetic::{CurveAffine, CurveExt};
use pasta_curves::group::ff::PrimeField;
use pasta_curves::group::prime::PrimeCurveAffine;
use pasta_curves::group::Curve;
use vstd::prelude::*;

verus! {

/// The product of two integers in the base field.
pub open spec fn base_mul(a: nat, b: nat) -> nat {
    (a * b) % fp_modulus()
}

/// The sum of two integers in the base field.
pub open spec fn base_add(a: nat, b: nat) -> nat {
    (a + b) % fp_modulus()
}

/// The cube of an integer in the base field.
pub open spec fn base_cube(a: nat) -> nat {
    base_mul(base_mul(a, a), a)
}

/// `(x, y)` is the point at infinity, written `(0, 0)`, or solves `y^2 = x^3 + 5`.
pub open spec fn is_affine_point(x: nat, y: nat) -> bool {
    (x == 0 && y == 0) || base_mul(y, y) == base_add(base_cube(x), 5)
}

/// `(x, y, z)` is a point at infinity, `z = 0`, or solves `y^2 = x^3 + 5 z^6`.
pub open spec fn is_jacobian_point(x: nat, y: nat, z: nat) -> bool {
    z == 0 || base_mul(y, y) == base_add(base_cube(x), base_mul(5, base_mul(base_cube(z), base_cube(z))))
}

/// A point in affine coordinates, or the point at infinity.
#[derive(Clone, Copy, Debug, PartialEq, Eq)]
pub struct Affine {
    pub(crate) x: Fp,
    pub(crate) y: Fp,
}

/// A point in Jacobian coordinates: it stands for `(x / z^2, y / z^3)`.
#[derive(Clone, Copy, Debug, PartialEq, Eq)]
pub struct Point {
    pub(crate) x: Fp,
    pub(crate) y: Fp,
    pub(crate) z: Fp,
}

/// The point that `pasta_curves` hashes `message` to under the domain prefix `domain`.
pub uninterp spec fn hash_to_curve_point(domain: Seq<char>, message: Seq<u8>) -> Point;

/// The Jacobian coordinates that `pasta_curves` computes for `scalar` times `point`.
pub uninterp spec fn curve_mul(point: Affine, scalar: Fq) -> Point;

/// The Jacobian coordinates that `pasta_curves` computes for the sum of two points.
pub uninterp spec fn curve_add(a: Point, b: Point) -> Point;

impl Affine {
    /// The first coordinate.
    pub closed spec fn x(&self) -> Fp {
        self.x
    }

    /// The second coordinate.
    pub closed spec fn y(&self) -> Fp {
        self.y
    }

    /// The coordinates are those of a point of the curve.
    #[verifier::type_invariant]
    pub open spec fn is_valid(&self) -> bool {
        is_affine_point(self.x().value(), self.y().value())
    }

    /// The point is the point at infinity.
    pub open spec fn is_identity_spec(&self) -> bool {
        self.x().value() == 0 && self.y().value() == 0
    }

    /// The point at infinity.
    pub fn identity() -> (r: Self)
        ensures
            r.is_identity_spec(),
            r.is_valid(),
    {
        Affine { x: Fp::zero(), y: Fp::zero() }
    }

    /// The point with the given coordinates, if they are those of a point of the curve.
    pub fn from_xy(x: Fp, y: Fp) -> (r: Option<Self>)
        ensures
            r is Some <==> is_affine_point(x.value(), y.value()),
            r matches Some(p) ==> p.x() == x && p.y() == y,
    {
        let zero = Fp::zero();
        let left = y.mul(&y);
        let right = x.mul(&x).mul(&x).add(&Fp::from_u8(5));
        if (x.equals(&zero) && y.equals(&zero)) || left.equals(&right) {
            Some(Affine { x, y })
        } else {
            None
        }
    }

    /// The coordinates, `(0, 0)` for the point at infinity.
    pub fn coordinates(&self) -> (r: (Fp, Fp))
        ensures
            r.0 == self.x(),
            r.1 == self.y(),
            self.is_valid(),
    {
        proof {
            use_type_invariant(self);
        }
        (self.x, self.y)
    }
}

impl Point {
    /// The first coordinate.
    pub closed spec fn x(&self) -> Fp {
        self.x
    }

    /// The second coordinate.
    pub closed spec fn y(&self) -> Fp {
        self.y
    }

    /// The third coordinate, zero for a point at infinity.
    pub closed spec fn z(&self) -> Fp {
        self.z
    }

    /// The coordinates are those of a point of the curve.
    #[verifier::type_invariant]
    pub open spec fn is_valid(&self) -> bool {
        is_jacobian_point(self.x().value(), self.y().value(), self.z().value())
    }

    /// The point at infinity in the coordinates `(0, 1, 0)`.
    pub closed spec fn identity_spec() -> Point {
        Point { x: element_of(0), y: element_of(1), z: element_of(0) }
    }

    /// The point at infinity in the coordinates `(0, 1, 0)`.
    pub fn identity() -> (r: Self)
        ensures
            r == Self::identity_spec(),
            r.x().value() == 0,
            r.y().value() == 1,
            r.z().value() == 0,
            r.is_valid(),
    {
        let r = Point { x: Fp::zero(), y: Fp::one(), z: Fp::zero() };
        proof {
            lemma_element_of_value(r.x);
            lemma_element_of_value(r.y);
            lemma_element_of_value(r.z);
        }
        r
    }

    /// The affine form of the point.
    pub fn to_affine(&self) -> (r: Affine)
        ensures
            is_affine_form_of(r, *self),
            r.is_valid(),
    {
        let mut single: Vec<Point> = Vec::new();
        single.push(*self);
        proof {
            use_type_invariant(self);
        }
        let out = batch_normalize(&single);
        out[0]
    }
}

/// `a` is `p` in affine coordinates: the point at infinity where `p.z` is zero,
/// and otherwise the pair with `a.x * z^2 = p.x` and `a.y * z^3 = p.y`.
pub open spec fn is_affine_form_of(a: Affine, p: Point) -> bool {
    let z = p.z().value();
    if z == 0 {
        a.is_identity_spec()
    } else {
        &&& base_mul(a.x().value(), base_mul(z, z)) == p.x().value()
        &&& base_mul(a.y().value(), base_cube(z)) == p.y().value()
    }
}

/// `pasta_curves::Ep::hash_to_curve`: the point to which the message is
/// hashed under the domain prefix, a function of the two alone. It is a point
/// of the curve. The call refuses prefixes of 228 bytes and more.
#[verifier::external_body]
pub(crate) fn hash_to_curve(domain: &str, message: &[u8]) -> (r: Point)
    requires
        domain.is_ascii(),
        domain@.len() < 228,
    ensures
        r == hash_to_curve_point(domain@, message@),
        r.is_valid(),
{
    let p = pasta_curves::Ep::hash_to_curve(domain)(message);
    let (x, y, z) = p.jacobian_coordinates();
    Point { x: Fp { bytes: x.to_repr() }, y: Fp { bytes: y.to_repr() }, z: Fp { bytes: z.to_repr() } }
}

/// `pasta_curves::Ep::batch_normalize`: each point in affine coordinates, in
/// the order given.
#[verifier::external_body]
pub(crate) fn batch_normalize(points: &Vec<Point>) -> (r: Vec<Affine>)
    requires
        forall|i: int| 0 <= i < points.len() ==> points[i].is_valid(),
    ensures
        r.len() == points.len(),
        forall|i: int| 0 <= i < r.len() ==> is_affine_form_of(#[trigger] r[i], points[i]),
        forall|i: int| 0 <= i < r.len() ==> (#[trigger] r[i]).is_valid(),
{
    let from = |f: &Fp| pasta_curves::Fp::from_repr(f.bytes).unwrap();
    let p: Vec<pasta_curves::Ep> =
        points.iter().map(|p| pasta_curves::Ep::new_jacobian(from(&p.x), from(&p.y), from(&p.z)).unwrap()).collect();
    let mut q = vec![pasta_curves::EpAffine::identity(); p.len()];
    pasta_curves::Ep::batch_normalize(&p, &mut q);
    q.iter().map(|a| {
        let (x, y, _) = a.to_curve().jacobian_coordinates();
        Affine { x: Fp { bytes: x.to_repr() }, y: Fp { bytes: y.to_repr() } }
    }).collect()
}

/// Multiplication of an affine point by a scalar in `pasta_curves`: the
/// product, a function of the two alone. It is a point of the curve.
#[verifier::external_body]
pub(crate) fn point_mul(point: &Affine, scalar: &Fq) -> (r: Point)
    requires
        point.is_valid(),
    ensures
        r == curve_mul(*point, *scalar),
        r.is_valid(),
{
    let from = |f: &Fp| pasta_curves::Fp::from_repr(f.bytes).unwrap();
    let a = pasta_curves::EpAffine::from_xy(from(&point.x), from(&point.y)).unwrap();
    let p = a * pasta_curves::Fq::from_repr(scalar.bytes).unwrap();
    let (x, y, z) = p.jacobian_coordinates();
    Point { x: Fp { bytes: x.to_repr() }, y: Fp { bytes: y.to_repr() }, z: Fp { bytes: z.to_repr() } }
}

/// Addition of two points in `pasta_curves`: the sum, a function of the two
/// alone. It is a point of the curve.
#[verifier::external_body]
pub(crate) fn point_add(a: &Point, b: &Point) -> (r: Point)
    requires
        a.is_valid(),
        b.is_valid(),
    ensures
        r == curve_add(*a, *b),
        r.is_valid(),
{
    let from = |f: &Fp| pasta_curves::Fp::from_repr(f.bytes).unwrap();
    let p = pasta_curves::Ep::new_jacobian(from(&a.x), from(&a.y), from(&a.z)).unwrap();
    let q = pasta_curves::Ep::new_jacobian(from(&b.x), from(&b.y), from(&b.z)).unwrap();
    let (x, y, z) = (p + q).jacobian_coordinates();
    Point { x: Fp { bytes: x.to_repr() }, y: Fp { bytes: y.to_repr() }, z: Fp { bytes: z.to_repr() } }
}

} // verus!
