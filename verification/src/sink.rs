use vstd::prelude::*;

use gzp::deflate::Gzip;
use gzp::par::compress::{ParCompress, ParCompressBuilder};
use gzp::ZWriter;
use std::io::Write;

verus! {

#[verifier::external_type_specification]
#[verifier::external_body]
pub struct ExGzpError(gzp::GzpError);

/// The byte stream that inflating a gzip container yields: a pure
/// function of the compressed bytes.
pub uninterp spec fn gunzip_of(compressed: Seq<u8>) -> Seq<u8>;

/// An error of the compression layer.
#[derive(Debug, Clone, Copy, PartialEq, Eq, Structural)]
pub enum SinkError {
    Compression,
}

/// Relies on gzp's `ParCompress<Gzip>`: blocks are compressed on `threads`
/// workers but written in submission order, so the emitted container
/// inflates back to exactly the bytes written, whatever the worker count.
/// `ParCompressBuilder::num_threads` refuses zero workers, so one is
/// required here.
#[verifier::external_body]
fn gzip_compress(data: &[u8], threads: usize) -> (r: Result<Vec<u8>, gzp::GzpError>)
    requires
        1 <= threads,
    ensures
        r is Ok ==> gunzip_of(r->Ok_0@) == data@,
{
    let builder = match ParCompressBuilder::<Gzip>::new().num_threads(threads) {
        Ok(b) => b,
        Err(e) => return Err(e),
    };
    let mut enc: ParCompress<Gzip, Vec<u8>> = builder.from_writer(Vec::new());
    if let Err(e) = enc.write_all(data) {
        return Err(gzp::GzpError::Io(e));
    }
    enc.finish()
}

/// Relies on num_cpus::get, documented to return the number of available
/// CPUs and always at least one.
pub assume_specification [ num_cpus::get ] () -> (n: usize)
    ensures
        1 <= n,
;

/// Layer the optional compression step over an emitted stream, as the
/// output sink does: the stream itself when compression is off, and an
/// order-preserving parallel gzip container of it when on. A worker count
/// of zero means all available workers; a positive count is clamped to
/// the available workers.
pub fn gzip_passthrough(stream: Vec<u8>, compress: bool, threads: usize) -> (r: Result<
    Vec<u8>,
    SinkError,
>)
    ensures
        !compress ==> r is Ok && r->Ok_0@ == stream@,
        compress ==> (r is Ok ==> gunzip_of(r->Ok_0@) == stream@),
        r is Err ==> compress,
{
    if compress {
        let avail = num_cpus::get();
        let workers = if threads == 0 {
            avail
        } else if threads < avail {
            threads
        } else {
            avail
        };
        match gzip_compress(stream.as_slice(), workers) {
            Ok(v) => Ok(v),
            Err(_) => Err(SinkError::Compression),
        }
    } else {
        Ok(stream)
    }
}

/// Compression transparency: two compressed containers of the same
/// uncompressed stream — whatever worker counts produced them — inflate
/// to the same bytes, the stream itself.
pub proof fn lemma_compression_transparency(c1: Seq<u8>, c2: Seq<u8>, stream: Seq<u8>)
    requires
        gunzip_of(c1) == stream,
        gunzip_of(c2) == stream,
    ensures
        gunzip_of(c1) == gunzip_of(c2),
{
}

} // verus!
