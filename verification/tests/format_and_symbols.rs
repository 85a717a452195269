use nucgen::{Format, Nucleotide, NucRng, Sequence};

#[test]
fn format_from_plain_extensions() {
    assert_eq!(Format::from_path("reads.fasta"), Some(Format::Fasta));
    assert_eq!(Format::from_path("reads.fa"), Some(Format::Fasta));
    assert_eq!(Format::from_path("reads.fastq"), Some(Format::Fastq));
    assert_eq!(Format::from_path("reads.fq"), Some(Format::Fastq));
}

#[test]
fn format_from_gzipped_extensions() {
    assert_eq!(Format::from_path("reads.fasta.gz"), Some(Format::Fasta));
    assert_eq!(Format::from_path("reads.fq.gz"), Some(Format::Fastq));
    assert_eq!(Format::from_path("a.b.fastq.gz"), Some(Format::Fastq));
}

#[test]
fn format_from_unknown_paths() {
    assert_eq!(Format::from_path("reads.txt"), None);
    assert_eq!(Format::from_path("reads.gz"), None);
    assert_eq!(Format::from_path("gz"), None);
    assert_eq!(Format::from_path(""), None);
    assert_eq!(Format::from_path("fa"), Some(Format::Fasta));
}

#[test]
fn nucleotide_codes() {
    assert_eq!(Nucleotide::A.to_u8(), b'A');
    assert_eq!(Nucleotide::C.to_u8(), b'C');
    assert_eq!(Nucleotide::G.to_u8(), b'G');
    assert_eq!(Nucleotide::T.to_u8(), b'T');
    assert_eq!(Nucleotide::A.to_char(), 'A');
    assert_eq!(Nucleotide::C.to_char(), 'C');
    assert_eq!(Nucleotide::G.to_char(), 'G');
    assert_eq!(Nucleotide::T.to_char(), 'T');
}

#[test]
fn generate_sequence_matches_fill_buffer() {
    let mut rng1 = NucRng::from_seed(77);
    let nucs = Nucleotide::generate_sequence(&mut rng1, 24);
    assert_eq!(nucs.len(), 24);

    let mut rng2 = NucRng::from_seed(77);
    let mut sbuf = Sequence::new();
    sbuf.fill_buffer(&mut rng2, 24);

    let bytes: Vec<u8> = nucs.iter().map(|n| n.to_u8()).collect();
    assert_eq!(bytes.as_slice(), sbuf.bytes());
}

#[test]
fn sampling_draws_every_symbol() {
    let mut rng = NucRng::from_seed(1);
    let nucs = Nucleotide::generate_sequence(&mut rng, 256);
    for target in [b'A', b'C', b'G', b'T'] {
        assert!(nucs.iter().any(|n| n.to_u8() == target));
    }
}
