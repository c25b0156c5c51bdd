//! Compression by the `flate2` crate.

use crate::buffer;
use flate2::write::ZlibEncoder;
use flate2::Compression;
use std::io::Write;
use vstd::prelude::*;

verus! {

/// What a `ZlibEncoder` with `Compression::fast` makes of the data, or `None`
/// where it reports an error.
pub uninterp spec fn zlib_fast(data: Seq<u8>) -> Option<Seq<u8>>;

/// The data that a compressed form was made of: what decompressing it gives.
pub open spec fn inflated(compressed: Seq<u8>) -> Seq<u8> {
    choose|data: Seq<u8>| #[trigger] zlib_fast(data) == Some(compressed)
}

/// `ZlibEncoder::new`, `write_all` and `finish` of flate2, into a vector, at
/// the fastest level. Compression is lossless: no other data gives the same
/// bytes. What comes out has a header and a checksum, so it is never empty.
/// Nothing is claimed of when it succeeds.
#[verifier::external_body]
pub(crate) fn zlib_compress(data: &[u8]) -> (r: Option<Vec<u8>>)
    ensures
        buffer::bytes_in(r) == zlib_fast(data@),
        r matches Some(c) ==> c@.len() > 0,
        r matches Some(c) ==> forall|other: Seq<u8>|
            #[trigger] zlib_fast(other) == Some(c@) ==> other == data@,
{
    let mut encoder = ZlibEncoder::new(Vec::new(), Compression::fast());
    encoder.write_all(data).ok()?;
    encoder.finish().ok()
}

} // verus!
