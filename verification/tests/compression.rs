use std::io::Read;

use flate2::read::GzDecoder;
use nucgen::{gen_single_end, gzip_passthrough, Format, NucRng};

fn gunzip(data: &[u8]) -> Vec<u8> {
    let mut decoder = GzDecoder::new(data);
    let mut out = Vec::new();
    decoder.read_to_end(&mut out).unwrap();
    out
}

#[test]
fn passthrough_returns_stream_unchanged() {
    let mut rng = NucRng::from_seed(21);
    let stream = gen_single_end(&mut rng, 4, 32, Format::Fasta);
    let out = gzip_passthrough(stream.clone(), false, 0).unwrap();
    assert_eq!(out, stream);
}

#[test]
fn compressed_output_decompresses_to_stream() {
    let mut rng = NucRng::from_seed(21);
    let stream = gen_single_end(&mut rng, 50, 100, Format::Fastq);
    let compressed = gzip_passthrough(stream.clone(), true, 2).unwrap();
    assert_ne!(compressed, stream);
    assert_eq!(gunzip(&compressed), stream);
}

#[test]
fn worker_counts_agree_after_decompression() {
    let mut rng = NucRng::from_seed(42);
    let stream = gen_single_end(&mut rng, 200, 80, Format::Fastq);

    let one = gzip_passthrough(stream.clone(), true, 1).unwrap();
    let four = gzip_passthrough(stream.clone(), true, 4).unwrap();
    let auto = gzip_passthrough(stream.clone(), true, 0).unwrap();

    assert_eq!(gunzip(&one), stream);
    assert_eq!(gunzip(&four), stream);
    assert_eq!(gunzip(&auto), stream);
    assert_eq!(gunzip(&one), gunzip(&four));
}
