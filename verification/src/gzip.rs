//! The compression primitive used for content negotiation, behind a trusted
//! boundary.

use vstd::prelude::*;
use std::io::Write;

verus! {

/// The gzip stream that the compression primitive produces for the given
/// bytes at its default level. The stream is a function of the input alone;
/// its exact bytes are not spelled out here.
pub uninterp spec fn gzip_of(s: Seq<u8>) -> Seq<u8>;

/// Relies on flate2's `write::GzEncoder` at the default compression level:
/// it writes a fixed header (zero modification time, operating-system byte
/// 255, chosen for cross-platform reproducible streams), so the output
/// depends on the input bytes alone; writing into an in-memory buffer
/// cannot fail.
#[verifier::external_body]
pub(crate) fn gzip_compress(data: &[u8]) -> (r: Vec<u8>)
    ensures
        r@ == gzip_of(data@),
{
    let mut encoder = flate2::write::GzEncoder::new(Vec::new(), flate2::Compression::default());
    encoder.write_all(data).unwrap();
    encoder.finish().unwrap()
}

} // verus!
