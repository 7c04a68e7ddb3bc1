//! Elements of the two prime fields of the Pasta cycle.
//!
//! An element is held by its canonical 32-byte little-endian encoding, and its
//! meaning in contracts is the integer below the modulus that the bytes spell.
//! The arithmetic itself is done by `pasta_curves`.

use vstd::prelude::*;

verus! {

/// The integer that a little-endian byte string spells.
pub open spec fn le_value(bytes: Seq<u8>) -> nat
    decreases bytes.len(),
{
    if bytes.len() == 0 {
        0
    } else {
        bytes[0] as nat + 256 * le_value(bytes.drop_first())
    }
}

/// The order of the Pallas base field, which is the Vesta scalar field.
pub open spec fn fp_modulus() -> nat {
    0x40000000000000000000000000000000224698fc094cf91b992d30ed00000001nat
}

/// The order of the Pallas scalar field, which is the Vesta base field.
pub open spec fn fq_modulus() -> nat {
    0x40000000000000000000000000000000224698fc0994a8dd8c46eb2100000001nat
}

/// What the sparse-matrix code needs of a field: its order, the integer an
/// element stands for, and addition and multiplication modulo the order.
pub trait FieldElement: Copy + Send + Sync {
    /// The order of the field.
    spec fn modulus() -> nat;

    /// The integer in `[0, modulus)` that the element stands for.
    spec fn value(&self) -> nat;

    /// A field has at least two elements.
    proof fn lemma_modulus_positive()
        ensures
            Self::modulus() > 1,
    ;

    /// Two elements that stand for the same integer are the same element.
    proof fn lemma_value_injective(a: Self, b: Self)
        requires
            a.value() == b.value(),
        ensures
            a == b,
    ;

    /// The additive identity.
    fn zero() -> (r: Self)
        ensures
            r.value() == 0,
    ;

    /// The multiplicative identity.
    fn one() -> (r: Self)
        ensures
            r.value() == 1,
    ;

    /// The sum of the two elements.
    fn add(&self, rhs: &Self) -> (r: Self)
        ensures
            r.value() == (self.value() + rhs.value()) % Self::modulus(),
    ;

    /// The product of the two elements.
    fn mul(&self, rhs: &Self) -> (r: Self)
        ensures
            r.value() == (self.value() * rhs.value()) % Self::modulus(),
    ;
}

/// The element that stands for the integer `v`, where there is one.
pub open spec fn element_of<F: FieldElement>(v: nat) -> F {
    choose|x: F| x.value() == v
}

/// Every element is the element of its own value.
pub proof fn lemma_element_of_value<F: FieldElement>(x: F)
    ensures
        element_of::<F>(x.value()) == x,
{
    F::lemma_value_injective(element_of::<F>(x.value()), x);
}

/// A byte string of zeros spells zero.
pub proof fn lemma_le_value_zeros(bytes: Seq<u8>)
    requires
        forall|i: int| 0 <= i < bytes.len() ==> bytes[i] == 0,
    ensures
        le_value(bytes) == 0,
    decreases bytes.len(),
{
    if bytes.len() > 0 {
        lemma_le_value_zeros(bytes.drop_first());
    }
}

/// Byte strings of one length that spell the same integer are equal.
pub proof fn lemma_le_value_injective(a: Seq<u8>, b: Seq<u8>)
    requires
        a.len() == b.len(),
        le_value(a) == le_value(b),
    ensures
        a == b,
    decreases a.len(),
{
    if a.len() > 0 {
        let ta = le_value(a.drop_first());
        let tb = le_value(b.drop_first());
        assert(a[0] as nat + 256 * ta == b[0] as nat + 256 * tb);
        assert(ta == tb && a[0] == b[0]) by {
            if ta < tb {
                assert(256 * ta + 256 <= 256 * tb);
            } else if tb < ta {
                assert(256 * tb + 256 <= 256 * ta);
            }
        }
        lemma_le_value_injective(a.drop_first(), b.drop_first());
        assert(a =~= seq![a[0]] + a.drop_first());
        assert(b =~= seq![b[0]] + b.drop_first());
    } else {
        assert(a =~= b);
    }
}

/// Whether two encodings are the same.
fn bytes_equal(a: &[u8; 32], b: &[u8; 32]) -> (r: bool)
    ensures
        r == (a@ == b@),
{
    let mut i: usize = 0;
    while i < 32
        invariant
            i <= 32,
            forall|j: int| 0 <= j < i ==> a@[j] == b@[j],
        decreases 32 - i,
    {
        if a[i] != b[i] {
            return false;
        }
        i += 1;
    }
    proof {
        assert(a@ =~= b@);
    }
    true
}

/// The encoding of an integer below 256.
fn small_bytes(x: u8) -> (bytes: [u8; 32])
    ensures
        le_value(bytes@) == x,
{
    let bytes: [u8; 32] = [
        x, 0, 0, 0, 0, 0, 0, 0, 0, 0, 0, 0, 0, 0, 0, 0,
        0, 0, 0, 0, 0, 0, 0, 0, 0, 0, 0, 0, 0, 0, 0, 0,
    ];
    proof {
        lemma_le_value_zeros(bytes@.drop_first());
    }
    bytes
}

/// An element of the Pallas base field.
#[derive(Clone, Copy, Debug, PartialEq, Eq)]
pub struct Fp {
    pub(crate) bytes: [u8; 32],
}

/// An element of the Pallas scalar field.
#[derive(Clone, Copy, Debug, PartialEq, Eq)]
pub struct Fq {
    pub(crate) bytes: [u8; 32],
}

/// `pasta_curves::Fp::from_repr`, asked only whether it accepts: the call
/// succeeds exactly on encodings of integers below the modulus.
#[verifier::external_body]
fn fp_is_canonical(bytes: &[u8; 32]) -> (b: bool)
    ensures
        b == (le_value(bytes@) < fp_modulus()),
{
    bool::from(<pasta_curves::Fp as pasta_curves::group::ff::PrimeField>::from_repr(*bytes).is_some())
}

/// Addition in `pasta_curves::Fp`: the sum of the two integers, reduced
/// modulo the field order and given in canonical encoding.
#[verifier::external_body]
fn fp_add(a: &[u8; 32], b: &[u8; 32]) -> (r: [u8; 32])
    requires
        le_value(a@) < fp_modulus(),
        le_value(b@) < fp_modulus(),
    ensures
        le_value(r@) == (le_value(a@) + le_value(b@)) % fp_modulus(),
{
    let x = <pasta_curves::Fp as pasta_curves::group::ff::PrimeField>::from_repr(*a).unwrap();
    let y = <pasta_curves::Fp as pasta_curves::group::ff::PrimeField>::from_repr(*b).unwrap();
    pasta_curves::group::ff::PrimeField::to_repr(&(x + y))
}

/// Multiplication in `pasta_curves::Fp`: the product of the two integers,
/// reduced modulo the field order and given in canonical encoding.
#[verifier::external_body]
fn fp_mul(a: &[u8; 32], b: &[u8; 32]) -> (r: [u8; 32])
    requires
        le_value(a@) < fp_modulus(),
        le_value(b@) < fp_modulus(),
    ensures
        le_value(r@) == (le_value(a@) * le_value(b@)) % fp_modulus(),
{
    let x = <pasta_curves::Fp as pasta_curves::group::ff::PrimeField>::from_repr(*a).unwrap();
    let y = <pasta_curves::Fp as pasta_curves::group::ff::PrimeField>::from_repr(*b).unwrap();
    pasta_curves::group::ff::PrimeField::to_repr(&(x * y))
}

/// `pasta_curves::Fq::from_repr`, asked only whether it accepts: the call
/// succeeds exactly on encodings of integers below the modulus.
#[verifier::external_body]
fn fq_is_canonical(bytes: &[u8; 32]) -> (b: bool)
    ensures
        b == (le_value(bytes@) < fq_modulus()),
{
    bool::from(<pasta_curves::Fq as pasta_curves::group::ff::PrimeField>::from_repr(*bytes).is_some())
}

/// Addition in `pasta_curves::Fq`: the sum of the two integers, reduced
/// modulo the field order and given in canonical encoding.
#[verifier::external_body]
fn fq_add(a: &[u8; 32], b: &[u8; 32]) -> (r: [u8; 32])
    requires
        le_value(a@) < fq_modulus(),
        le_value(b@) < fq_modulus(),
    ensures
        le_value(r@) == (le_value(a@) + le_value(b@)) % fq_modulus(),
{
    let x = <pasta_curves::Fq as pasta_curves::group::ff::PrimeField>::from_repr(*a).unwrap();
    let y = <pasta_curves::Fq as pasta_curves::group::ff::PrimeField>::from_repr(*b).unwrap();
    pasta_curves::group::ff::PrimeField::to_repr(&(x + y))
}

/// Multiplication in `pasta_curves::Fq`: the product of the two integers,
/// reduced modulo the field order and given in canonical encoding.
#[verifier::external_body]
fn fq_mul(a: &[u8; 32], b: &[u8; 32]) -> (r: [u8; 32])
    requires
        le_value(a@) < fq_modulus(),
        le_value(b@) < fq_modulus(),
    ensures
        le_value(r@) == (le_value(a@) * le_value(b@)) % fq_modulus(),
{
    let x = <pasta_curves::Fq as pasta_curves::group::ff::PrimeField>::from_repr(*a).unwrap();
    let y = <pasta_curves::Fq as pasta_curves::group::ff::PrimeField>::from_repr(*b).unwrap();
    pasta_curves::group::ff::PrimeField::to_repr(&(x * y))
}

impl Fp {
    #[verifier::type_invariant]
    closed spec fn canonical(self) -> bool {
        le_value(self.bytes@) < fp_modulus()
    }

    /// The canonical encoding of the element.
    pub closed spec fn repr(&self) -> Seq<u8> {
        self.bytes@
    }

    /// The element that `bytes` encodes, if they spell an integer below the modulus.
    pub fn from_bytes(bytes: [u8; 32]) -> (r: Option<Self>)
        ensures
            r is Some <==> le_value(bytes@) < fp_modulus(),
            r matches Some(x) ==> x.repr() == bytes@ && x.value() == le_value(bytes@),
    {
        if fp_is_canonical(&bytes) {
            Some(Fp { bytes })
        } else {
            None
        }
    }

    /// The canonical encoding of the element.
    pub fn to_bytes(&self) -> (r: [u8; 32])
        ensures
            r@ == self.repr(),
            le_value(r@) == self.value(),
            self.value() < fp_modulus(),
    {
        proof {
            use_type_invariant(self);
        }
        self.bytes
    }

    /// The element that stands for an integer below 256.
    pub fn from_u8(x: u8) -> (r: Self)
        ensures
            r.value() == x,
    {
        Fp { bytes: small_bytes(x) }
    }

    /// Whether the two elements are the same.
    pub fn equals(&self, other: &Self) -> (r: bool)
        ensures
            r == (self.value() == other.value()),
            r == (*self == *other),
    {
        let r = bytes_equal(&self.bytes, &other.bytes);
        proof {
            if self.value() == other.value() {
                lemma_le_value_injective(self.bytes@, other.bytes@);
            }
            if r {
                assert(self.bytes =~= other.bytes);
            }
        }
        r
    }
}

impl FieldElement for Fp {
    open spec fn modulus() -> nat {
        fp_modulus()
    }

    closed spec fn value(&self) -> nat {
        le_value(self.bytes@)
    }

    proof fn lemma_modulus_positive() {
    }

    proof fn lemma_value_injective(a: Self, b: Self) {
        lemma_le_value_injective(a.bytes@, b.bytes@);
        assert(a.bytes =~= b.bytes);
    }

    fn zero() -> (r: Self) {
        let bytes: [u8; 32] = [
            0, 0, 0, 0, 0, 0, 0, 0, 0, 0, 0, 0, 0, 0, 0, 0,
            0, 0, 0, 0, 0, 0, 0, 0, 0, 0, 0, 0, 0, 0, 0, 0,
        ];
        proof {
            lemma_le_value_zeros(bytes@);
        }
        Fp { bytes }
    }

    fn one() -> (r: Self) {
        let bytes: [u8; 32] = [
            1, 0, 0, 0, 0, 0, 0, 0, 0, 0, 0, 0, 0, 0, 0, 0,
            0, 0, 0, 0, 0, 0, 0, 0, 0, 0, 0, 0, 0, 0, 0, 0,
        ];
        proof {
            lemma_le_value_zeros(bytes@.drop_first());
        }
        Fp { bytes }
    }

    fn add(&self, rhs: &Self) -> (r: Self) {
        proof {
            use_type_invariant(self);
            use_type_invariant(rhs);
        }
        Fp { bytes: fp_add(&self.bytes, &rhs.bytes) }
    }

    fn mul(&self, rhs: &Self) -> (r: Self) {
        proof {
            use_type_invariant(self);
            use_type_invariant(rhs);
        }
        Fp { bytes: fp_mul(&self.bytes, &rhs.bytes) }
    }
}

impl Fq {
    #[verifier::type_invariant]
    closed spec fn canonical(self) -> bool {
        le_value(self.bytes@) < fq_modulus()
    }

    /// The canonical encoding of the element.
    pub closed spec fn repr(&self) -> Seq<u8> {
        self.bytes@
    }

    /// The element that `bytes` encodes, if they spell an integer below the modulus.
    pub fn from_bytes(bytes: [u8; 32]) -> (r: Option<Self>)
        ensures
            r is Some <==> le_value(bytes@) < fq_modulus(),
            r matches Some(x) ==> x.repr() == bytes@ && x.value() == le_value(bytes@),
    {
        if fq_is_canonical(&bytes) {
            Some(Fq { bytes })
        } else {
            None
        }
    }

    /// The canonical encoding of the element.
    pub fn to_bytes(&self) -> (r: [u8; 32])
        ensures
            r@ == self.repr(),
            le_value(r@) == self.value(),
            self.value() < fq_modulus(),
    {
        proof {
            use_type_invariant(self);
        }
        self.bytes
    }

    /// The element that stands for an integer below 256.
    pub fn from_u8(x: u8) -> (r: Self)
        ensures
            r.value() == x,
    {
        Fq { bytes: small_bytes(x) }
    }

    /// Whether the two elements are the same.
    pub fn equals(&self, other: &Self) -> (r: bool)
        ensures
            r == (self.value() == other.value()),
            r == (*self == *other),
    {
        let r = bytes_equal(&self.bytes, &other.bytes);
        proof {
            if self.value() == other.value() {
                lemma_le_value_injective(self.bytes@, other.bytes@);
            }
            if r {
                assert(self.bytes =~= other.bytes);
            }
        }
        r
    }
}

impl FieldElement for Fq {
    open spec fn modulus() -> nat {
        fq_modulus()
    }

    closed spec fn value(&self) -> nat {
        le_value(self.bytes@)
    }

    proof fn lemma_modulus_positive() {
    }

    proof fn lemma_value_injective(a: Self, b: Self) {
        lemma_le_value_injective(a.bytes@, b.bytes@);
        assert(a.bytes =~= b.bytes);
    }

    fn zero() -> (r: Self) {
        let bytes: [u8; 32] = [
            0, 0, 0, 0, 0, 0, 0, 0, 0, 0, 0, 0, 0, 0, 0, 0,
            0, 0, 0, 0, 0, 0, 0, 0, 0, 0, 0, 0, 0, 0, 0, 0,
        ];
        proof {
            lemma_le_value_zeros(bytes@);
        }
        Fq { bytes }
    }

    fn one() -> (r: Self) {
        let bytes: [u8; 32] = [
            1, 0, 0, 0, 0, 0, 0, 0, 0, 0, 0, 0, 0, 0, 0, 0,
            0, 0, 0, 0, 0, 0, 0, 0, 0, 0, 0, 0, 0, 0, 0, 0,
        ];
        proof {
            lemma_le_value_zeros(bytes@.drop_first());
        }
        Fq { bytes }
    }

    fn add(&self, rhs: &Self) -> (r: Self) {
        proof {
            use_type_invariant(self);
            use_type_invariant(rhs);
        }
        Fq { bytes: fq_add(&self.bytes, &rhs.bytes) }
    }

    fn mul(&self, rhs: &Self) -> (r: Self) {
        proof {
            use_type_invariant(self);
            use_type_invariant(rhs);
        }
        Fq { bytes: fq_mul(&self.bytes, &rhs.bytes) }
    }
}

} // verus!
