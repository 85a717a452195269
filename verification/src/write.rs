use vstd::prelude::*;

use crate::nucleotide::is_nucleotide_byte;

verus! {

/// The decimal digits of `n`, most significant first, no padding.
pub open spec fn dec_digits(n: nat) -> Seq<u8>
    decreases n,
{
    if n < 10 {
        seq![(48 + n) as u8]
    } else {
        dec_digits(n / 10).push((48 + n % 10) as u8)
    }
}

/// The record identifier `seq.<n>`, as bytes.
pub open spec fn seq_id(index: nat) -> Seq<u8> {
    seq![115u8, 101u8, 113u8, 46u8] + dec_digits(index)
}

/// The FASTA wire format of one record: `>seq.<index>\n<bases>\n`.
pub open spec fn fasta_record(index: nat, bases: Seq<u8>) -> Seq<u8> {
    seq![62u8] + seq_id(index) + seq![10u8] + bases + seq![10u8]
}

/// The FASTQ wire format of one record:
/// `@seq.<index>\n<bases>\n+\n<qual>\n`.
pub open spec fn fastq_record(index: nat, bases: Seq<u8>, qual: Seq<u8>) -> Seq<u8> {
    seq![64u8] + seq_id(index) + seq![10u8] + bases + seq![10u8, 43u8, 10u8] + qual + seq![10u8]
}

/// Append the decimal rendering of `n` to `out`.
fn push_decimal(out: &mut Vec<u8>, n: usize)
    ensures
        final(out)@ == old(out)@ + dec_digits(n as nat),
    decreases n,
{
    if n < 10 {
        out.push(48 + (n as u8));
        assert(out@ =~= old(out)@ + dec_digits(n as nat));
    } else {
        push_decimal(out, n / 10);
        out.push(48 + ((n % 10) as u8));
        assert(out@ =~= old(out)@ + dec_digits(n as nat));
    }
}

/// Append one FASTA record to the sink.
pub fn write_fasta(out: &mut Vec<u8>, index: usize, bases: &[u8])
    ensures
        final(out)@ == old(out)@ + fasta_record(index as nat, bases@),
{
    out.push(62u8);
    out.push(115u8);
    out.push(101u8);
    out.push(113u8);
    out.push(46u8);
    push_decimal(out, index);
    out.push(10u8);
    out.extend_from_slice(bases);
    out.push(10u8);
    assert(out@ =~= old(out)@ + fasta_record(index as nat, bases@));
}

/// Append one FASTQ record to the sink. The caller supplies the quality
/// bytes; their length is not checked against the bases here.
pub fn write_fastq(out: &mut Vec<u8>, index: usize, bases: &[u8], qual: &[u8])
    ensures
        final(out)@ == old(out)@ + fastq_record(index as nat, bases@, qual@),
{
    out.push(64u8);
    out.push(115u8);
    out.push(101u8);
    out.push(113u8);
    out.push(46u8);
    push_decimal(out, index);
    out.push(10u8);
    out.extend_from_slice(bases);
    out.push(10u8);
    out.push(43u8);
    out.push(10u8);
    out.extend_from_slice(qual);
    out.push(10u8);
    assert(out@ =~= old(out)@ + fastq_record(index as nat, bases@, qual@));
}

/// Split a byte stream at its first newline: the line before it and the
/// bytes after it, or nothing if no newline follows.
pub open spec fn split_line(b: Seq<u8>) -> Option<(Seq<u8>, Seq<u8>)>
    decreases b.len(),
{
    if b.len() == 0 {
        None
    } else if b[0] == 10u8 {
        Some((Seq::empty(), b.subrange(1, b.len() as int)))
    } else {
        match split_line(b.subrange(1, b.len() as int)) {
            Some(p) => Some((seq![b[0]] + p.0, p.1)),
            None => None,
        }
    }
}

/// Splitting a newline-free line followed by a newline recovers exactly
/// that line and the bytes after the newline.
pub proof fn lemma_split_line(l: Seq<u8>, rest: Seq<u8>)
    requires
        forall|i: int| 0 <= i < l.len() ==> l[i] != 10u8,
    ensures
        split_line(l + seq![10u8] + rest) == Some((l, rest)),
    decreases l.len(),
{
    let b = l + seq![10u8] + rest;
    if l.len() == 0 {
        assert(b[0] == 10u8);
        assert(b.subrange(1, b.len() as int) =~= rest);
        assert(l =~= Seq::<u8>::empty());
    } else {
        assert(b[0] == l[0]);
        let tl = l.subrange(1, l.len() as int);
        assert(b.subrange(1, b.len() as int) =~= tl + seq![10u8] + rest);
        lemma_split_line(tl, rest);
        assert(seq![b[0]] + tl =~= l);
    }
}

/// Parse one FASTA record from the front of a stream: the `>` marker, an
/// identifier line, a sequence line. Yields the identifier, the sequence
/// bytes, and the remaining stream.
pub open spec fn parse_fasta_record(b: Seq<u8>) -> Option<(Seq<u8>, Seq<u8>, Seq<u8>)> {
    if b.len() == 0 || b[0] != 62u8 {
        None
    } else {
        match split_line(b.subrange(1, b.len() as int)) {
            None => None,
            Some(hd) => match split_line(hd.1) {
                None => None,
                Some(sq) => Some((hd.0, sq.0, sq.1)),
            },
        }
    }
}

/// Parse one FASTQ record from the front of a stream: the `@` marker, an
/// identifier line, a sequence line, a literal `+` separator line, and a
/// quality line. Yields the identifier, the sequence bytes, the quality
/// bytes, and the remaining stream.
pub open spec fn parse_fastq_record(b: Seq<u8>) -> Option<(Seq<u8>, Seq<u8>, Seq<u8>, Seq<u8>)> {
    if b.len() == 0 || b[0] != 64u8 {
        None
    } else {
        match split_line(b.subrange(1, b.len() as int)) {
            None => None,
            Some(hd) => match split_line(hd.1) {
                None => None,
                Some(sq) => match split_line(sq.1) {
                    None => None,
                    Some(pl) => if pl.0 != seq![43u8] {
                        None
                    } else {
                        match split_line(pl.1) {
                            None => None,
                            Some(ql) => Some((hd.0, sq.0, ql.0, ql.1)),
                        }
                    },
                },
            },
        }
    }
}

/// Every decimal digit byte lies between `0` and `9`.
pub proof fn lemma_dec_digits_ascii(n: nat)
    ensures
        forall|i: int| 0 <= i < dec_digits(n).len() ==> 48 <= #[trigger] dec_digits(n)[i] <= 57,
    decreases n,
{
    if n >= 10 {
        lemma_dec_digits_ascii(n / 10);
        assert forall|i: int|
            0 <= i < dec_digits(n).len() implies 48 <= #[trigger] dec_digits(n)[i] <= 57 by {
            if i < dec_digits(n / 10).len() {
                assert(dec_digits(n)[i] == dec_digits(n / 10)[i]);
            }
        }
    }
}

/// The identifier `seq.<index>` holds no newline.
pub proof fn lemma_seq_id_no_newline(index: nat)
    ensures
        forall|i: int| 0 <= i < seq_id(index).len() ==> #[trigger] seq_id(index)[i] != 10u8,
{
    lemma_dec_digits_ascii(index);
}

/// Round trip: an emitted FASTA record at the front of a stream, parsed
/// back, yields identifier `seq.<index>`, exactly the emitted bases, and
/// the rest of the stream.
pub proof fn lemma_fasta_round_trip(index: nat, bases: Seq<u8>, rest: Seq<u8>)
    requires
        forall|i: int| 0 <= i < bases.len() ==> is_nucleotide_byte(#[trigger] bases[i]),
    ensures
        parse_fasta_record(fasta_record(index, bases) + rest) == Some(
            (seq_id(index), bases, rest),
        ),
{
    let b = fasta_record(index, bases) + rest;
    assert(b[0] == 62u8);
    assert(b.subrange(1, b.len() as int) =~= seq_id(index) + seq![10u8] + (
    bases + seq![10u8] + rest));
    lemma_seq_id_no_newline(index);
    lemma_split_line(seq_id(index), bases + seq![10u8] + rest);
    lemma_split_line(bases, rest);
}

/// Round trip: an emitted FASTQ record at the front of a stream, parsed
/// back, yields identifier `seq.<index>`, exactly the emitted bases and
/// quality bytes, and the rest of the stream.
pub proof fn lemma_fastq_round_trip(index: nat, bases: Seq<u8>, qual: Seq<u8>, rest: Seq<u8>)
    requires
        forall|i: int| 0 <= i < bases.len() ==> is_nucleotide_byte(#[trigger] bases[i]),
        forall|i: int| 0 <= i < qual.len() ==> qual[i] != 10u8,
    ensures
        parse_fastq_record(fastq_record(index, bases, qual) + rest) == Some(
            (seq_id(index), bases, qual, rest),
        ),
{
    let b = fastq_record(index, bases, qual) + rest;
    assert(b[0] == 64u8);
    assert(b.subrange(1, b.len() as int) =~= seq_id(index) + seq![10u8] + (
    bases + seq![10u8] + (seq![43u8] + seq![10u8] + (qual + seq![10u8] + rest))));
    lemma_seq_id_no_newline(index);
    lemma_split_line(seq_id(index), bases + seq![10u8] + (
    seq![43u8] + seq![10u8] + (qual + seq![10u8] + rest)));
    lemma_split_line(bases, seq![43u8] + seq![10u8] + (qual + seq![10u8] + rest));
    lemma_split_line(seq![43u8], qual + seq![10u8] + rest);
    lemma_split_line(qual, rest);
}

} // verus!
