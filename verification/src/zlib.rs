//! Named results and wrappers for the two zlib-family computations the
//! decoder leans on: the CRC-32 checksum and zlib stream inflation.

use vstd::prelude::*;

verus! {

/// CRC-32 over a byte sequence, using the standard polynomial shared by
/// zlib, DEFLATE and PNG. The checksum is a pure function of the bytes;
/// it is named here and computed by the flate2 crate.
pub uninterp spec fn crc32_of(bytes: Seq<u8>) -> u32;

/// The outcome of inflating a zlib-compressed stream: `Some` of the
/// decompressed bytes when the stream is well formed, `None` when it is
/// malformed. Inflation is a pure function of the compressed bytes; it is
/// named here and computed by the flate2 crate.
pub uninterp spec fn inflate_of(bytes: Seq<u8>) -> Option<Seq<u8>>;

/// Relies on flate2::Crc (backed by crc32fast): creating a hasher, feeding
/// it `bytes` once and taking `sum` yields the CRC-32 of exactly those bytes.
#[verifier::external_body]
pub(crate) fn crc32(bytes: &[u8]) -> (r: u32)
    ensures
        r == crc32_of(bytes@),
{
    let mut hasher = flate2::Crc::new();
    hasher.update(bytes);
    hasher.sum()
}

/// Relies on flate2::read::ZlibDecoder: reading it to the end yields the
/// whole decompressed stream, or an error for a malformed stream; the
/// outcome depends on the compressed bytes alone.
#[verifier::external_body]
pub(crate) fn zlib_inflate(bytes: &[u8]) -> (r: Option<Vec<u8>>)
    ensures
        match r {
            Some(v) => inflate_of(bytes@) == Some(v@),
            None => inflate_of(bytes@) is None,
        },
{
    let mut decoder = flate2::read::ZlibDecoder::new(bytes);
    let mut out = Vec::new();
    match std::io::Read::read_to_end(&mut decoder, &mut out) {
        Ok(_) => Some(out),
        Err(_) => None,
    }
}

} // verus!
