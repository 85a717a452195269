use vstd::prelude::*;

use rand::Rng;
use rand::SeedableRng;
use rand_chacha::ChaCha8Rng;

verus! {

#[verifier::external_type_specification]
#[verifier::external_body]
pub struct ExChaCha8Rng(ChaCha8Rng);

/// The byte at position `index` of the stream that a ChaCha8 generator
/// seeded from the 64-bit value `seed` yields through successive byte
/// draws. The stream is a pure function of the seed: the generator holds
/// no other input.
pub uninterp spec fn chacha_stream(seed: u64, index: nat) -> u8;

/// Relies on rand_chacha's `ChaCha8Rng` with `SeedableRng::seed_from_u64`:
/// the returned generator is in the state that `seed` determines, with
/// nothing drawn yet. Its byte stream is pinned down by the contract of
/// `NucRng::next_byte`.
#[verifier::external_body]
fn chacha_from_u64(seed: u64) -> ChaCha8Rng {
    ChaCha8Rng::seed_from_u64(seed)
}

/// A ChaCha8 randomness stream together with the mathematical position in
/// its byte stream: `seed()` is the value it was seeded from and `drawn()`
/// counts the bytes drawn so far.
pub struct NucRng {
    inner: ChaCha8Rng,
    seed: Ghost<u64>,
    drawn: Ghost<nat>,
}

impl NucRng {
    /// The value the stream was seeded from.
    pub closed spec fn seed(self) -> u64 {
        self.seed@
    }

    /// How many bytes have been drawn from the stream.
    pub closed spec fn drawn(self) -> nat {
        self.drawn@
    }

    /// A fresh stream seeded from a 64-bit value.
    pub fn from_seed(seed: u64) -> (r: NucRng)
        ensures
            r.seed() == seed,
            r.drawn() == 0,
    {
        NucRng { inner: chacha_from_u64(seed), seed: Ghost(seed), drawn: Ghost(0) }
    }

    /// Relies on rand's `Rng::gen::<u8>` over `ChaCha8Rng`: the next byte is
    /// a pure function of the generator state, which is determined by the
    /// seed and the number of bytes already drawn.
    #[verifier::external_body]
    pub(crate) fn next_byte(&mut self) -> (b: u8)
        ensures
            final(self).seed() == old(self).seed(),
            final(self).drawn() == old(self).drawn() + 1,
            b == chacha_stream(old(self).seed(), old(self).drawn()),
    {
        self.inner.gen::<u8>()
    }
}

} // verus!
