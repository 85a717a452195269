use nucgen::{write_fasta, write_fastq, NucRng, Sequence};
use seq_io::fasta::{Reader as FastaReader, Record as FastaRecord};
use seq_io::fastq::{Reader as FastqReader, Record as FastqRecord};

#[test]
fn test_write_fasta() {
    let mut sbuf = Sequence::new();
    let mut rng = NucRng::from_seed(1);
    sbuf.fill_buffer(&mut rng, 10);

    let mut out: Vec<u8> = Vec::new();
    write_fasta(&mut out, 0, sbuf.bytes());

    let mut reader = FastaReader::new(out.as_slice());
    let record = reader.next().unwrap().unwrap();
    assert_eq!(record.id(), Ok("seq.0"));
    assert_eq!(record.seq(), sbuf.bytes());

    assert!(reader.next().is_none());
}

#[test]
fn test_write_fastq() {
    let mut sbuf = Sequence::new();
    let mut rng = NucRng::from_seed(1);
    sbuf.fill_buffer(&mut rng, 10);
    let qual = vec![b'?'; 10];

    let mut out: Vec<u8> = Vec::new();
    write_fastq(&mut out, 0, sbuf.bytes(), &qual);

    let mut reader = FastqReader::new(out.as_slice());
    let record = reader.next().unwrap().unwrap();
    assert_eq!(record.id(), Ok("seq.0"));
    assert_eq!(record.seq(), sbuf.bytes());
    assert_eq!(record.qual(), &qual[..]);

    assert!(reader.next().is_none());
}

#[test]
fn write_fasta_appends_index_in_decimal() {
    let mut out: Vec<u8> = Vec::new();
    write_fasta(&mut out, 1234567890, b"ACGT");
    assert_eq!(out, b">seq.1234567890\nACGT\n");
}

#[test]
fn write_fastq_exact_bytes() {
    let mut out: Vec<u8> = Vec::new();
    write_fastq(&mut out, 7, b"ACGTA", b"?????");
    assert_eq!(out, b"@seq.7\nACGTA\n+\n?????\n");
}
