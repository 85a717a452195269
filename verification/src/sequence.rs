use vstd::prelude::*;

use crate::nucleotide::{is_nucleotide_byte, lemma_symbol_valid, symbol_of};
use crate::rng::{chacha_stream, NucRng};

verus! {

/// The bytes that a fill of length `len` yields when the stream stands at
/// position `start`: one symbol per drawn byte, in draw order.
pub open spec fn fill_model(seed: u64, start: nat, len: nat) -> Seq<u8> {
    Seq::new(len, |i: int| symbol_of(chacha_stream(seed, (start + i) as nat)))
}

/// Length invariant: a fill of length `len` yields exactly `len` bytes,
/// each the ASCII code of one of the four nucleotides.
pub proof fn lemma_fill_length_invariant(seed: u64, start: nat, len: nat)
    ensures
        fill_model(seed, start, len).len() == len,
        forall|i: int|
            0 <= i < len ==> is_nucleotide_byte(#[trigger] fill_model(seed, start, len)[i]),
{
    assert forall|i: int|
        0 <= i < len implies is_nucleotide_byte(#[trigger] fill_model(seed, start, len)[i]) by {
        lemma_symbol_valid(chacha_stream(seed, (start + i) as nat));
    }
}

/// Buffer hygiene: after a fill of length `m`, a second fill of length `n`
/// leaves an active buffer of exactly `n` bytes, each one a symbol drawn
/// strictly after every draw of the earlier fill — nothing of the earlier,
/// longer content remains.
pub proof fn lemma_buffer_hygiene(seed: u64, start: nat, m: nat, n: nat)
    requires
        n < m,
    ensures
        fill_model(seed, start + m, n).len() == n,
        forall|i: int|
            0 <= i < n ==> #[trigger] fill_model(seed, start + m, n)[i] == symbol_of(
                chacha_stream(seed, (start + m + i) as nat),
            ),
{
}

/// A reusable sequence buffer: the active buffer holds the most recently
/// generated symbols, and a scratch buffer of retained capacity receives
/// the next fill before the two are exchanged, so that steady state costs
/// neither a copy nor an allocation.
pub struct Sequence {
    seq: Vec<u8>,
    scratch: Vec<u8>,
}

impl View for Sequence {
    type V = Seq<u8>;

    /// A sequence buffer is seen as the contents of its active buffer.
    closed spec fn view(&self) -> Seq<u8> {
        self.seq@
    }
}

impl Sequence {
    /// An empty sequence buffer.
    pub fn new() -> (r: Sequence)
        ensures
            r@ == Seq::<u8>::empty(),
    {
        let r = Sequence { seq: Vec::new(), scratch: Vec::new() };
        assert(r@ =~= Seq::<u8>::empty());
        r
    }

    /// An empty sequence buffer whose two buffers start with the given
    /// capacity.
    pub fn with_capacity(capacity: usize) -> (r: Sequence)
        ensures
            r@ == Seq::<u8>::empty(),
    {
        let r = Sequence {
            seq: Vec::with_capacity(capacity),
            scratch: Vec::with_capacity(capacity),
        };
        assert(r@ =~= Seq::<u8>::empty());
        r
    }

    /// Empty the active buffer.
    pub fn clear_buffer(&mut self)
        ensures
            final(self)@ == Seq::<u8>::empty(),
    {
        self.seq.clear();
        assert(self@ =~= Seq::<u8>::empty());
    }

    /// Overwrite the scratch buffer with `len` freshly drawn symbols, then
    /// exchange the two buffers: the active buffer now holds exactly the
    /// new symbols, whatever either buffer held before.
    pub fn fill_buffer(&mut self, rng: &mut NucRng, len: usize)
        ensures
            final(self)@ == fill_model(old(rng).seed(), old(rng).drawn(), len as nat),
            final(self)@.len() == len,
            forall|i: int| 0 <= i < len ==> is_nucleotide_byte(#[trigger] final(self)@[i]),
            final(rng).seed() == old(rng).seed(),
            final(rng).drawn() == old(rng).drawn() + len,
    {
        self.scratch.clear();
        let mut i: usize = 0;
        while i < len
            invariant
                i <= len,
                self.scratch@.len() == i,
                forall|k: int|
                    0 <= k < i ==> #[trigger] self.scratch@[k] == symbol_of(
                        chacha_stream(old(rng).seed(), (old(rng).drawn() + k) as nat),
                    ),
                rng.seed() == old(rng).seed(),
                rng.drawn() == old(rng).drawn() + i,
            decreases len - i,
        {
            let b = rng.next_byte();
            let m = b & 3;
            proof {
                assert(b & 3 < 4) by (bit_vector);
            }
            let c: u8 = if m == 0 {
                65
            } else if m == 1 {
                67
            } else if m == 2 {
                71
            } else {
                84
            };
            self.scratch.push(c);
            i = i + 1;
        }
        core::mem::swap(&mut self.seq, &mut self.scratch);
        assert(self@ =~= fill_model(old(rng).seed(), old(rng).drawn(), len as nat));
        proof {
            lemma_fill_length_invariant(old(rng).seed(), old(rng).drawn(), len as nat);
        }
    }

    /// A read-only view of the active buffer, valid until the next fill.
    pub fn bytes(&self) -> (r: &[u8])
        ensures
            r@ == self@,
    {
        self.seq.as_slice()
    }
}

impl Default for Sequence {
    /// An empty sequence buffer.
    fn default() -> (r: Sequence)
        ensures
            r@ == Seq::<u8>::empty(),
    {
        Sequence::new()
    }
}

} // verus!
