//! zlib streams (RFC 1950), decoded by `flate2`.
use vstd::prelude::*;

verus! {

/// The bytes that `flate2`'s zlib decoder yields for `data`, read to the end
/// of the stream; `None` when it reports an error.
pub uninterp spec fn zlib_inflate(data: Seq<u8>) -> Option<Seq<u8>>;

/// `flate2::read::ZlibDecoder` over `data`, read to the end. Claims only that
/// the outcome is the decoder's outcome for `data`.
#[verifier::external_body]
pub fn zlib_decompress(data: &[u8]) -> (r: Option<Vec<u8>>)
    ensures
        match r {
            Some(v) => zlib_inflate(data@) == Some(v@),
            None => zlib_inflate(data@) is None,
        },
{
    let mut out = Vec::new();
    std::io::Read::read_to_end(&mut flate2::read::ZlibDecoder::new(data), &mut out).ok()?;
    Some(out)
}

} // verus!
