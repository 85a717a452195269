use vstd::prelude::*;

use crate::format::Format;
use crate::rng::NucRng;
use crate::sequence::{fill_model, lemma_fill_length_invariant, Sequence};
use crate::write::{
    fasta_record, fastq_record, lemma_fasta_round_trip, lemma_fastq_round_trip,
    parse_fasta_record, parse_fastq_record, seq_id, write_fasta, write_fastq,
};

verus! {

/// The placeholder quality bytes for a sequence of length `len`: the byte
/// `?` repeated, one per symbol.
pub open spec fn qual_model(len: nat) -> Seq<u8> {
    Seq::new(len, |i: int| 63u8)
}

/// The wire bytes of record `index` with the given bases: FASTA as is,
/// FASTQ with the placeholder quality of matching length.
pub open spec fn record_model(fmt: Format, index: nat, bases: Seq<u8>) -> Seq<u8> {
    match fmt {
        Format::Fasta => fasta_record(index, bases),
        Format::Fastq => fastq_record(index, bases, qual_model(bases.len())),
    }
}

/// The bytes that records `i..n` of a generation run emit, when the
/// stream draws for record `k` begin at position `start + k * stride +
/// off` and each record holds `len` symbols.
pub open spec fn stream_model(
    seed: u64,
    start: nat,
    i: nat,
    n: nat,
    stride: nat,
    off: nat,
    len: nat,
    fmt: Format,
) -> Seq<u8>
    decreases n - i,
{
    if i >= n {
        Seq::empty()
    } else {
        record_model(fmt, i, fill_model(seed, start + i * stride + off, len)) + stream_model(
            seed,
            start,
            i + 1,
            n,
            stride,
            off,
            len,
            fmt,
        )
    }
}

/// The whole byte stream of a single-end run of `n` records of length
/// `slen`, starting at stream position `start`.
pub open spec fn single_end_model(seed: u64, start: nat, n: nat, slen: nat, fmt: Format) -> Seq<
    u8,
> {
    stream_model(seed, start, 0, n, slen, 0, slen, fmt)
}

/// The primary byte stream of a paired-end run: record `k` is filled
/// first, from position `start + k * (slen + xlen)`.
pub open spec fn paired_primary_model(
    seed: u64,
    start: nat,
    n: nat,
    slen: nat,
    xlen: nat,
    fmt: Format,
) -> Seq<u8> {
    stream_model(seed, start, 0, n, slen + xlen, 0, slen, fmt)
}

/// The secondary byte stream of a paired-end run: record `k` is filled
/// right after its mate, from position `start + k * (slen + xlen) + slen`.
pub open spec fn paired_secondary_model(
    seed: u64,
    start: nat,
    n: nat,
    slen: nat,
    xlen: nat,
    fmt: Format,
) -> Seq<u8> {
    stream_model(seed, start, 0, n, slen + xlen, slen, xlen, fmt)
}

/// Extending a run by one record appends that record's bytes.
proof fn lemma_stream_model_snoc(
    seed: u64,
    start: nat,
    i: nat,
    n: nat,
    stride: nat,
    off: nat,
    len: nat,
    fmt: Format,
)
    requires
        i <= n,
    ensures
        stream_model(seed, start, i, n + 1, stride, off, len, fmt) == stream_model(
            seed,
            start,
            i,
            n,
            stride,
            off,
            len,
            fmt,
        ) + record_model(fmt, n, fill_model(seed, start + n * stride + off, len)),
    decreases n - i,
{
    let rec = record_model(fmt, n, fill_model(seed, start + n * stride + off, len));
    if i >= n {
        assert(stream_model(seed, start, i, n, stride, off, len, fmt) =~= Seq::<u8>::empty());
        assert(stream_model(seed, start, i + 1, n + 1, stride, off, len, fmt) =~= Seq::<
            u8,
        >::empty());
        assert(stream_model(seed, start, i, n + 1, stride, off, len, fmt) =~= Seq::<u8>::empty()
            + rec);
    } else {
        lemma_stream_model_snoc(seed, start, i + 1, n, stride, off, len, fmt);
        let head = record_model(fmt, i, fill_model(seed, start + i * stride + off, len));
        let tail = stream_model(seed, start, i + 1, n, stride, off, len, fmt);
        assert(head + (tail + rec) =~= (head + tail) + rec);
    }
}

/// Generate `num_records` single-end records of length `slen` in the
/// given format and return the emitted byte stream, which is exactly the
/// stream the seed and the configuration determine.
pub fn gen_single_end(rng: &mut NucRng, num_records: usize, slen: usize, fmt: Format) -> (out: Vec<
    u8,
>)
    ensures
        out@ == single_end_model(
            old(rng).seed(),
            old(rng).drawn(),
            num_records as nat,
            slen as nat,
            fmt,
        ),
        final(rng).seed() == old(rng).seed(),
        final(rng).drawn() == old(rng).drawn() + num_records * slen,
{
    let mut out: Vec<u8> = Vec::new();
    let mut sbuf = Sequence::new();
    let qual: Vec<u8> = make_qual(slen);
    let mut idx: usize = 0;
    assert(out@ =~= Seq::<u8>::empty());
    while idx < num_records
        invariant
            idx <= num_records,
            out@ == stream_model(
                old(rng).seed(),
                old(rng).drawn(),
                0,
                idx as nat,
                slen as nat,
                0,
                slen as nat,
                fmt,
            ),
            rng.seed() == old(rng).seed(),
            rng.drawn() == old(rng).drawn() + idx * slen,
            qual@ == qual_model(slen as nat),
        decreases num_records - idx,
    {
        sbuf.fill_buffer(rng, slen);
        match fmt {
            Format::Fasta => write_fasta(&mut out, idx, sbuf.bytes()),
            Format::Fastq => write_fastq(&mut out, idx, sbuf.bytes(), qual.as_slice()),
        }
        proof {
            lemma_stream_model_snoc(
                old(rng).seed(),
                old(rng).drawn(),
                0,
                idx as nat,
                slen as nat,
                0,
                slen as nat,
                fmt,
            );
            assert((idx + 1) * slen == idx * slen + slen) by (nonlinear_arith);
        }
        idx = idx + 1;
    }
    out
}

/// Generate `num_records` mate pairs: for each index in order, one
/// primary record of length `slen` and one secondary record of length
/// `xlen`, each appended to its own stream under the same index.
pub fn gen_paired_end(
    rng: &mut NucRng,
    num_records: usize,
    slen: usize,
    xlen: usize,
    fmt: Format,
) -> (out: (Vec<u8>, Vec<u8>))
    ensures
        out.0@ == paired_primary_model(
            old(rng).seed(),
            old(rng).drawn(),
            num_records as nat,
            slen as nat,
            xlen as nat,
            fmt,
        ),
        out.1@ == paired_secondary_model(
            old(rng).seed(),
            old(rng).drawn(),
            num_records as nat,
            slen as nat,
            xlen as nat,
            fmt,
        ),
        final(rng).seed() == old(rng).seed(),
        final(rng).drawn() == old(rng).drawn() + num_records * (slen as nat + xlen as nat),
{
    let mut out1: Vec<u8> = Vec::new();
    let mut out2: Vec<u8> = Vec::new();
    let mut s1 = Sequence::new();
    let mut s2 = Sequence::new();
    let q1: Vec<u8> = make_qual(slen);
    let q2: Vec<u8> = make_qual(xlen);
    let mut idx: usize = 0;
    assert(out1@ =~= Seq::<u8>::empty());
    assert(out2@ =~= Seq::<u8>::empty());
    while idx < num_records
        invariant
            idx <= num_records,
            out1@ == stream_model(
                old(rng).seed(),
                old(rng).drawn(),
                0,
                idx as nat,
                slen as nat + xlen as nat,
                0,
                slen as nat,
                fmt,
            ),
            out2@ == stream_model(
                old(rng).seed(),
                old(rng).drawn(),
                0,
                idx as nat,
                slen as nat + xlen as nat,
                slen as nat,
                xlen as nat,
                fmt,
            ),
            rng.seed() == old(rng).seed(),
            rng.drawn() == old(rng).drawn() + idx * (slen as nat + xlen as nat),
            q1@ == qual_model(slen as nat),
            q2@ == qual_model(xlen as nat),
        decreases num_records - idx,
    {
        s1.fill_buffer(rng, slen);
        s2.fill_buffer(rng, xlen);
        match fmt {
            Format::Fasta => {
                write_fasta(&mut out1, idx, s1.bytes());
                write_fasta(&mut out2, idx, s2.bytes());
            },
            Format::Fastq => {
                write_fastq(&mut out1, idx, s1.bytes(), q1.as_slice());
                write_fastq(&mut out2, idx, s2.bytes(), q2.as_slice());
            },
        }
        proof {
            let stride = slen as nat + xlen as nat;
            lemma_stream_model_snoc(
                old(rng).seed(),
                old(rng).drawn(),
                0,
                idx as nat,
                stride,
                0,
                slen as nat,
                fmt,
            );
            lemma_stream_model_snoc(
                old(rng).seed(),
                old(rng).drawn(),
                0,
                idx as nat,
                stride,
                slen as nat,
                xlen as nat,
                fmt,
            );
            assert((idx + 1) * stride == idx * stride + stride) by (nonlinear_arith);
        }
        idx = idx + 1;
    }
    (out1, out2)
}

/// The placeholder quality buffer: `?` repeated `len` times.
fn make_qual(len: usize) -> (r: Vec<u8>)
    ensures
        r@ == qual_model(len as nat),
{
    let mut r: Vec<u8> = Vec::new();
    let mut i: usize = 0;
    while i < len
        invariant
            i <= len,
            r@.len() == i,
            forall|k: int| 0 <= k < i ==> #[trigger] r@[k] == 63u8,
        decreases len - i,
    {
        r.push(63u8);
        i = i + 1;
    }
    assert(r@ =~= qual_model(len as nat));
    r
}

/// Determinism: two runs from the same seed, the same stream position,
/// and the same configuration emit identical bytes — the emitted stream
/// is a pure function of seed and configuration.
pub proof fn lemma_determinism(
    seed: u64,
    start: nat,
    out1: Seq<u8>,
    out2: Seq<u8>,
    n: nat,
    slen: nat,
    fmt: Format,
)
    requires
        out1 == single_end_model(seed, start, n, slen, fmt),
        out2 == single_end_model(seed, start, n, slen, fmt),
    ensures
        out1 == out2,
{
}

/// Determinism in paired-end mode: two runs from the same seed, the same
/// stream position, and the same configuration emit identical primary
/// streams and identical secondary streams.
pub proof fn lemma_determinism_paired(
    seed: u64,
    start: nat,
    p1: Seq<u8>,
    s1: Seq<u8>,
    p2: Seq<u8>,
    s2: Seq<u8>,
    n: nat,
    slen: nat,
    xlen: nat,
    fmt: Format,
)
    requires
        p1 == paired_primary_model(seed, start, n, slen, xlen, fmt),
        s1 == paired_secondary_model(seed, start, n, slen, xlen, fmt),
        p2 == paired_primary_model(seed, start, n, slen, xlen, fmt),
        s2 == paired_secondary_model(seed, start, n, slen, xlen, fmt),
    ensures
        p1 == p2,
        s1 == s2,
{
}

/// Parse a whole stream as consecutive records of one format, yielding
/// the (identifier, sequence) pairs in order.
pub open spec fn parse_records(b: Seq<u8>, fmt: Format) -> Option<Seq<(Seq<u8>, Seq<u8>)>>
    decreases b.len(),
{
    if b.len() == 0 {
        Some(Seq::empty())
    } else {
        let step = match fmt {
            Format::Fasta => match parse_fasta_record(b) {
                Some(r) => Some((r.0, r.1, r.2)),
                None => None,
            },
            Format::Fastq => match parse_fastq_record(b) {
                Some(r) => Some((r.0, r.1, r.3)),
                None => None,
            },
        };
        match step {
            None => None,
            Some(r) => if r.2.len() < b.len() {
                match parse_records(r.2, fmt) {
                    None => None,
                    Some(tl) => Some(seq![(r.0, r.1)] + tl),
                }
            } else {
                None
            },
        }
    }
}

/// A generated stream of records `i..n` parses into exactly those
/// records: identifier `seq.<k>` and the `k`-th fill, in order.
proof fn lemma_stream_parses(
    seed: u64,
    start: nat,
    i: nat,
    n: nat,
    stride: nat,
    off: nat,
    len: nat,
    fmt: Format,
)
    requires
        i <= n,
    ensures
        parse_records(stream_model(seed, start, i, n, stride, off, len, fmt), fmt) == Some(
            Seq::new(
                (n - i) as nat,
                |k: int|
                    (
                        seq_id((i + k) as nat),
                        fill_model(seed, (start + (i + k) * stride + off) as nat, len),
                    ),
            ),
        ),
    decreases n - i,
{
    let target = Seq::new(
        (n - i) as nat,
        |k: int|
            (seq_id((i + k) as nat), fill_model(seed, (start + (i + k) * stride + off) as nat, len)),
    );
    if i >= n {
        assert(target =~= Seq::<(Seq<u8>, Seq<u8>)>::empty());
    } else {
        let bases = fill_model(seed, start + i * stride + off, len);
        let tail = stream_model(seed, start, i + 1, n, stride, off, len, fmt);
        let b = stream_model(seed, start, i, n, stride, off, len, fmt);
        lemma_fill_length_invariant(seed, start + i * stride + off, len);
        match fmt {
            Format::Fasta => {
                lemma_fasta_round_trip(i, bases, tail);
                assert(parse_fasta_record(b) == Some((seq_id(i), bases, tail)));
            },
            Format::Fastq => {
                lemma_fastq_round_trip(i, bases, qual_model(len), tail);
                assert(parse_fastq_record(b) == Some((seq_id(i), bases, qual_model(len), tail)));
            },
        }
        assert(record_model(fmt, i, bases).len() > 0);
        lemma_stream_parses(seed, start, i + 1, n, stride, off, len, fmt);
        let shifted = Seq::new(
            (n - i - 1) as nat,
            |k: int|
                (
                    seq_id((i + 1 + k) as nat),
                    fill_model(seed, (start + (i + 1 + k) * stride + off) as nat, len),
                ),
        );
        assert(parse_records(b, fmt) == Some(seq![(seq_id(i), bases)] + shifted));
        assert forall|k: int| 0 <= k < target.len() implies (seq![(seq_id(i), bases)] + shifted)[k]
            == target[k] by {
            if k > 0 {
                assert((i + 1 + (k - 1)) * stride == (i + k) * stride);
            }
        }
        assert(seq![(seq_id(i), bases)] + shifted =~= target);
    }
}

/// Round trip over a whole single-end stream: it parses into exactly the
/// `n` generated records, the `k`-th carrying identifier `seq.<k>` and
/// the bases of the `k`-th fill.
pub proof fn lemma_single_end_round_trip(seed: u64, start: nat, n: nat, slen: nat, fmt: Format)
    ensures
        parse_records(single_end_model(seed, start, n, slen, fmt), fmt) == Some(
            Seq::new(
                n,
                |k: int| (seq_id(k as nat), fill_model(seed, (start + k * slen) as nat, slen)),
            ),
        ),
{
    lemma_stream_parses(seed, start, 0, n, slen, 0, slen, fmt);
    assert(Seq::new(
        n,
        |k: int| (seq_id((0 + k) as nat), fill_model(seed, (start + (0 + k) * slen + 0) as nat, slen)),
    ) =~= Seq::new(
        n,
        |k: int| (seq_id(k as nat), fill_model(seed, (start + k * slen) as nat, slen)),
    ));
}

/// Pairing alignment: both streams of a paired-end run parse into exactly
/// `n` records, and for each `i` the `i`-th record of either stream
/// carries the identifier `seq.<i>` — the mates exist together and share
/// their index.
pub proof fn lemma_pairing_alignment(
    seed: u64,
    start: nat,
    n: nat,
    slen: nat,
    xlen: nat,
    fmt: Format,
)
    ensures
        parse_records(paired_primary_model(seed, start, n, slen, xlen, fmt), fmt) is Some,
        parse_records(paired_secondary_model(seed, start, n, slen, xlen, fmt), fmt) is Some,
        parse_records(paired_primary_model(seed, start, n, slen, xlen, fmt), fmt)->Some_0.len()
            == n,
        parse_records(paired_secondary_model(seed, start, n, slen, xlen, fmt), fmt)->Some_0.len()
            == n,
        forall|i: int|
            0 <= i < n ==> parse_records(
                paired_primary_model(seed, start, n, slen, xlen, fmt),
                fmt,
            )->Some_0[i].0 == seq_id(i as nat) && parse_records(
                paired_secondary_model(seed, start, n, slen, xlen, fmt),
                fmt,
            )->Some_0[i].0 == seq_id(i as nat),
{
    lemma_stream_parses(seed, start, 0, n, slen + xlen, 0, slen, fmt);
    lemma_stream_parses(seed, start, 0, n, slen + xlen, slen, xlen, fmt);
}

} // verus!
