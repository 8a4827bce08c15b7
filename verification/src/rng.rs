//! The pseudorandom source behind edge sampling.
//!
//! The generator draws from `rand`'s `StdRng`, a deterministic generator whose
//! whole output stream is a function of its 32-byte seed. `RandomSource`
//! carries an `StdRng` together with the ghost seed and a ghost draw counter,
//! so that contracts can name each draw by its position in the stream.

use vstd::prelude::*;
use rand::RngCore;
use rand::SeedableRng;

verus! {

#[verifier::external_type_specification]
#[verifier::external_body]
pub struct ExStdRng(rand::rngs::StdRng);

/// The `k`-th `next_u64` value of a `rand::rngs::StdRng` built by `from_seed`
/// from `seed`. `StdRng` computes its outputs from the seed alone, so the
/// stream is a function of the seed and the position.
pub uninterp spec fn std_rng_u64(seed: Seq<u8>, k: int) -> u64;

/// Relies on `rand::SeedableRng::from_seed` for `StdRng`: builds the
/// generator whose output stream `std_rng_u64(seed_bytes@, ..)` names.
#[verifier::external_body]
fn std_rng_from_seed(seed_bytes: [u8; 32]) -> rand::rngs::StdRng {
    rand::rngs::StdRng::from_seed(seed_bytes)
}

/// Relies on `rand::random`: draws 32 bytes of fresh entropy to seed a
/// non-reproducible source with.
#[verifier::external_body]
fn entropy_seed() -> [u8; 32] {
    rand::random()
}

/// A pseudorandom source: an `StdRng` together with the seed that determines
/// its stream and the number of values drawn from it so far. Only the
/// constructors below build one, so the ghost seed is always the seed the
/// inner generator was built from.
pub struct RandomSource {
    inner: rand::rngs::StdRng,
    seed: Ghost<Seq<u8>>,
    drawn: Ghost<int>,
}

impl RandomSource {
    /// The seed whose stream the source yields.
    pub closed spec fn stream_seed(self) -> Seq<u8> {
        self.seed@
    }

    /// How many values have been drawn from the source so far.
    pub closed spec fn draws(self) -> int {
        self.drawn@
    }

    /// A reproducible source: two sources built from equal seeds yield equal
    /// streams.
    pub fn from_seed(seed_bytes: [u8; 32]) -> (r: RandomSource)
        ensures
            r.stream_seed() == seed_bytes@,
            r.draws() == 0,
    {
        RandomSource {
            inner: std_rng_from_seed(seed_bytes),
            seed: Ghost(seed_bytes@),
            drawn: Ghost(0),
        }
    }

    /// A non-reproducible source, seeded from system entropy: it yields the
    /// stream of whatever seed the entropy gave.
    pub fn from_entropy() -> (r: RandomSource)
        ensures
            r.draws() == 0,
    {
        let seed_bytes = entropy_seed();
        RandomSource::from_seed(seed_bytes)
    }

    /// Relies on `rand_core::RngCore::next_u64` for `StdRng`: each call yields
    /// the next value of the stream that the seed determines.
    #[verifier::external_body]
    pub fn next_u64(&mut self) -> (d: u64)
        ensures
            final(self).stream_seed() == old(self).stream_seed(),
            final(self).draws() == old(self).draws() + 1,
            d == std_rng_u64(old(self).stream_seed(), old(self).draws()),
    {
        self.inner.next_u64()
    }
}

} // verus!
