//! Generation of random nucleotide sequence records.
//!
//! The library draws uniformly random nucleotide symbols from a seeded
//! ChaCha8 stream, fills a reusable double-buffered sequence buffer with
//! them, serializes records in the FASTA or FASTQ wire format, and can
//! layer order-preserving parallel gzip compression over the emitted
//! byte stream.

mod format;
mod generate;
mod nucleotide;
mod rng;
mod sequence;
mod sink;
mod write;

pub use format::Format;
pub use generate::{gen_paired_end, gen_single_end};
pub use nucleotide::Nucleotide;
pub use rng::NucRng;
pub use sequence::Sequence;
pub use sink::{gzip_passthrough, SinkError};
pub use write::{write_fasta, write_fastq};
