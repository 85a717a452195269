use nucgen::{gen_paired_end, gen_single_end, Format, NucRng, Sequence};
use seq_io::fasta::{Reader as FastaReader, Record as FastaRecord};

fn is_symbol(b: u8) -> bool {
    b == b'A' || b == b'C' || b == b'G' || b == b'T'
}

#[test]
fn fasta_single_record_seed_42() {
    let mut rng = NucRng::from_seed(42);
    let out = gen_single_end(&mut rng, 1, 4, Format::Fasta);
    assert_eq!(out.len(), 12);
    assert_eq!(&out[..7], b">seq.0\n");
    assert!(out[7..11].iter().all(|&b| is_symbol(b)));
    assert_eq!(out[11], b'\n');

    let mut rng2 = NucRng::from_seed(42);
    let out2 = gen_single_end(&mut rng2, 1, 4, Format::Fasta);
    assert_eq!(out, out2);
}

#[test]
fn fastq_single_record_length_5() {
    let mut rng = NucRng::from_seed(3);
    let out = gen_single_end(&mut rng, 1, 5, Format::Fastq);
    assert_eq!(out.len(), 21);
    assert_eq!(&out[..7], b"@seq.0\n");
    assert!(out[7..12].iter().all(|&b| is_symbol(b)));
    assert_eq!(&out[12..15], b"\n+\n");
    assert_eq!(&out[15..20], b"?????");
    assert_eq!(out[20], b'\n');
}

#[test]
fn paired_end_three_records() {
    let mut rng = NucRng::from_seed(11);
    let (out1, out2) = gen_paired_end(&mut rng, 3, 10, 8, Format::Fasta);

    let mut reader1 = FastaReader::new(out1.as_slice());
    for idx in 0..3 {
        let record = reader1.next().unwrap().unwrap();
        assert_eq!(record.id(), Ok(format!("seq.{}", idx).as_str()));
        assert_eq!(record.seq().len(), 10);
        assert!(record.seq().iter().all(|&b| is_symbol(b)));
    }
    assert!(reader1.next().is_none());

    let mut reader2 = FastaReader::new(out2.as_slice());
    for idx in 0..3 {
        let record = reader2.next().unwrap().unwrap();
        assert_eq!(record.id(), Ok(format!("seq.{}", idx).as_str()));
        assert_eq!(record.seq().len(), 8);
        assert!(record.seq().iter().all(|&b| is_symbol(b)));
    }
    assert!(reader2.next().is_none());
}

#[test]
fn zero_length_sequence_keeps_framing() {
    let mut rng = NucRng::from_seed(5);
    let out = gen_single_end(&mut rng, 1, 0, Format::Fasta);
    assert_eq!(out, b">seq.0\n\n");

    let mut rng2 = NucRng::from_seed(5);
    let out2 = gen_single_end(&mut rng2, 1, 0, Format::Fastq);
    assert_eq!(out2, b"@seq.0\n\n+\n\n");
}

#[test]
fn identical_seeds_emit_identical_streams() {
    let mut rng1 = NucRng::from_seed(7);
    let mut rng2 = NucRng::from_seed(7);
    let out1 = gen_single_end(&mut rng1, 5, 13, Format::Fastq);
    let out2 = gen_single_end(&mut rng2, 5, 13, Format::Fastq);
    assert_eq!(out1, out2);

    let mut rng3 = NucRng::from_seed(8);
    let out3 = gen_single_end(&mut rng3, 5, 13, Format::Fastq);
    assert_ne!(out1, out3);

    let mut rng4 = NucRng::from_seed(7);
    let mut rng5 = NucRng::from_seed(7);
    let pair1 = gen_paired_end(&mut rng4, 4, 6, 3, Format::Fasta);
    let pair2 = gen_paired_end(&mut rng5, 4, 6, 3, Format::Fasta);
    assert_eq!(pair1, pair2);
}

#[test]
fn fill_buffer_length_and_alphabet() {
    let mut rng = NucRng::from_seed(9);
    let mut sbuf = Sequence::new();
    sbuf.fill_buffer(&mut rng, 16);
    assert_eq!(sbuf.bytes().len(), 16);
    assert!(sbuf.bytes().iter().all(|&b| is_symbol(b)));
}

#[test]
fn refill_with_shorter_length_leaves_no_residue() {
    let mut rng = NucRng::from_seed(13);
    let mut sbuf = Sequence::new();
    sbuf.fill_buffer(&mut rng, 10);
    let first: Vec<u8> = sbuf.bytes().to_vec();
    assert_eq!(first.len(), 10);
    sbuf.fill_buffer(&mut rng, 4);
    assert_eq!(sbuf.bytes().len(), 4);
    assert!(sbuf.bytes().iter().all(|&b| is_symbol(b)));

    // The shorter refill holds exactly the symbols drawn after the first
    // fill: a fresh stream that skips the first ten draws agrees with it.
    let mut rng2 = NucRng::from_seed(13);
    let mut scratch = Sequence::new();
    scratch.fill_buffer(&mut rng2, 10);
    let mut again = Sequence::new();
    again.fill_buffer(&mut rng2, 4);
    assert_eq!(sbuf.bytes(), again.bytes());
}

#[test]
fn clear_buffer_empties_active_buffer() {
    let mut rng = NucRng::from_seed(2);
    let mut sbuf = Sequence::with_capacity(8);
    sbuf.fill_buffer(&mut rng, 8);
    sbuf.clear_buffer();
    assert_eq!(sbuf.bytes().len(), 0);
}
