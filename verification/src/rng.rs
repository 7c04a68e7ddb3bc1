//! The random source of the workload generators: a ChaCha20 generator seeded
//! by the operating system. Nothing is known of what it yields but its shape.

use crate::field::{fq_modulus, FieldElement, Fq};
use pasta_curves::group::ff::{Field, PrimeField};
use rand::seq::SliceRandom;
use rand::{RngCore, SeedableRng};
use rand_chacha::ChaCha20Rng;
use vstd::prelude::*;

verus! {

/// `rand_chacha::ChaCha20Rng`: the generator is handed on as it is, and
/// nothing is said of its state.
#[verifier::external_type_specification]
#[verifier::external_body]
pub struct ExChaCha20Rng(ChaCha20Rng);

/// `ChaCha20Rng::from_entropy`: a generator seeded from the operating system.
/// The call panics where the system has no entropy to give.
#[verifier::external_body]
pub(crate) fn rng_from_entropy() -> ChaCha20Rng {
    ChaCha20Rng::from_entropy()
}

/// `RngCore::fill_bytes` on a fresh buffer: `len` bytes, whatever they are.
/// No buffer can be longer than `isize::MAX` bytes.
#[verifier::external_body]
pub(crate) fn random_bytes(rng: &mut ChaCha20Rng, len: usize) -> (r: Vec<u8>)
    requires
        len <= isize::MAX,
    ensures
        r.len() == len,
{
    let mut buffer = vec![0u8; len];
    rng.fill_bytes(&mut buffer);
    buffer
}

/// `Field::random` of `pasta_curves::Fq`: some element of the field.
#[verifier::external_body]
pub(crate) fn random_scalar(rng: &mut ChaCha20Rng) -> (r: Fq)
    ensures
        r.value() < fq_modulus(),
{
    Fq { bytes: pasta_curves::Fq::random(rng).to_repr() }
}

/// `SliceRandom::shuffle`: the same items in some other order.
#[verifier::external_body]
pub(crate) fn shuffle(items: &mut Vec<Fq>, rng: &mut ChaCha20Rng)
    ensures
        final(items)@.to_multiset() == old(items)@.to_multiset(),
{
    items.shuffle(rng);
}

} // verus!
