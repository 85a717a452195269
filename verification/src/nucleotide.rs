use vstd::prelude::*;

use crate::rng::{chacha_stream, NucRng};

verus! {

/// One of the four nucleotide symbols.
#[derive(Debug, Clone, Copy, PartialEq, Eq, Structural)]
pub enum Nucleotide {
    A,
    C,
    G,
    T,
}

/// The nucleotide chosen by the two low-order bits of a uniformly random
/// byte. Each of the four values is equally likely and draws are
/// independent, since the byte stream is uniform and independent.
pub open spec fn nuc_of_byte(b: u8) -> Nucleotide {
    if b & 3 == 0 {
        Nucleotide::A
    } else if b & 3 == 1 {
        Nucleotide::C
    } else if b & 3 == 2 {
        Nucleotide::G
    } else {
        Nucleotide::T
    }
}

/// The ASCII code of a nucleotide.
pub open spec fn nuc_byte(n: Nucleotide) -> u8 {
    match n {
        Nucleotide::A => 65,
        Nucleotide::C => 67,
        Nucleotide::G => 71,
        Nucleotide::T => 84,
    }
}

/// The ASCII symbol encoding of a random byte.
pub open spec fn symbol_of(b: u8) -> u8 {
    nuc_byte(nuc_of_byte(b))
}

/// Whether a byte is the ASCII code of one of the four nucleotides.
pub open spec fn is_nucleotide_byte(c: u8) -> bool {
    c == 65 || c == 67 || c == 71 || c == 84
}

/// Every random byte maps to a valid nucleotide code.
pub proof fn lemma_symbol_valid(b: u8)
    ensures
        is_nucleotide_byte(symbol_of(b)),
{
    assert(b & 3 < 4) by (bit_vector);
}

impl Nucleotide {
    /// The symbol as a character.
    pub open spec fn spec_char(self) -> char {
        match self {
            Nucleotide::A => 'A',
            Nucleotide::C => 'C',
            Nucleotide::G => 'G',
            Nucleotide::T => 'T',
        }
    }

    pub fn to_char(&self) -> (r: char)
        ensures
            r == self.spec_char(),
    {
        match self {
            Nucleotide::A => 'A',
            Nucleotide::C => 'C',
            Nucleotide::G => 'G',
            Nucleotide::T => 'T',
        }
    }

    pub fn to_u8(&self) -> (r: u8)
        ensures
            r == nuc_byte(*self),
    {
        match self {
            Nucleotide::A => 65,
            Nucleotide::C => 67,
            Nucleotide::G => 71,
            Nucleotide::T => 84,
        }
    }

    /// Draw one symbol from the randomness stream: each of the four values
    /// with probability 1/4, independent across calls.
    pub fn sample(rng: &mut NucRng) -> (r: Nucleotide)
        ensures
            r == nuc_of_byte(chacha_stream(old(rng).seed(), old(rng).drawn())),
            final(rng).seed() == old(rng).seed(),
            final(rng).drawn() == old(rng).drawn() + 1,
    {
        let b = rng.next_byte();
        let m = b & 3;
        proof {
            assert(b & 3 < 4) by (bit_vector);
        }
        if m == 0 {
            Nucleotide::A
        } else if m == 1 {
            Nucleotide::C
        } else if m == 2 {
            Nucleotide::G
        } else {
            Nucleotide::T
        }
    }

    /// Draw `len` symbols in order from the randomness stream.
    pub fn generate_sequence(rng: &mut NucRng, len: usize) -> (r: Vec<Nucleotide>)
        ensures
            r@ == Seq::new(
                len as nat,
                |i: int| nuc_of_byte(chacha_stream(old(rng).seed(), (old(rng).drawn() + i) as nat)),
            ),
            final(rng).seed() == old(rng).seed(),
            final(rng).drawn() == old(rng).drawn() + len,
    {
        let mut r: Vec<Nucleotide> = Vec::new();
        let mut i: usize = 0;
        while i < len
            invariant
                i <= len,
                r@.len() == i,
                forall|k: int|
                    0 <= k < i ==> #[trigger] r@[k] == nuc_of_byte(
                        chacha_stream(old(rng).seed(), (old(rng).drawn() + k) as nat),
                    ),
                rng.seed() == old(rng).seed(),
                rng.drawn() == old(rng).drawn() + i,
            decreases len - i,
        {
            r.push(Self::sample(rng));
            i = i + 1;
        }
        assert(r@ =~= Seq::new(
            len as nat,
            |i: int| nuc_of_byte(chacha_stream(old(rng).seed(), (old(rng).drawn() + i) as nat)),
        ));
        r
    }
}

} // verus!
