//! Properties of the decode that hold for every input, stated over the
//! specification functions and proved once and for all.

use vstd::prelude::*;

use crate::defilter::{left_ref, up_ref, upleft_ref};
use crate::png::{
    be_u32_spec, classify_spec, decode_chunks_spec, decode_spec, idat_concat, idat_type,
    iend_type, ihdr_type, is_ancillary, plte_type, png_signature, read_chunk_spec,
    read_chunks_spec, ChunkV, Error, ImageV,
};
use crate::zlib::crc32_of;

verus! {

/// Any input whose first eight bytes are not exactly the PNG signature —
/// in particular any input shorter than eight bytes — decodes to
/// `InvalidSignature`.
pub proof fn lemma_bad_signature(data: Seq<u8>)
    requires
        data.len() < 8 || data.subrange(0, 8) != png_signature(),
    ensures
        decode_spec(data) == Err::<ImageV, Error>(Error::InvalidSignature),
{
}

/// Altering any single byte of the 8-byte signature makes the decode fail
/// with `InvalidSignature`, whatever the rest of the input holds.
pub proof fn lemma_altered_signature(data: Seq<u8>, i: int)
    requires
        data.len() >= 8,
        0 <= i < 8,
        data[i] != png_signature()[i],
    ensures
        decode_spec(data) == Err::<ImageV, Error>(Error::InvalidSignature),
{
    assert(data.subrange(0, 8)[i] == data[i]);
}

/// A chunk record whose framing fits the stream but whose stored checksum
/// differs from the CRC-32 of its type and payload bytes is rejected as
/// `MismatchedCrc`, and so is the whole chunk stream from that record on.
pub proof fn lemma_crc_mismatch(data: Seq<u8>, pos: nat)
    requires
        pos + 12 + be_u32_spec(data.subrange(pos as int, pos as int + 4)) <= data.len(),
        be_u32_spec(
            data.subrange(
                pos as int + 8 + be_u32_spec(data.subrange(pos as int, pos as int + 4)),
                pos as int + 12 + be_u32_spec(data.subrange(pos as int, pos as int + 4)),
            ),
        ) != crc32_of(
            data.subrange(pos as int + 4, pos as int + 8) + data.subrange(
                pos as int + 8,
                pos as int + 8 + be_u32_spec(data.subrange(pos as int, pos as int + 4)),
            ),
        ),
    ensures
        read_chunk_spec(data, pos) == Err::<(ChunkV, nat), Error>(Error::MismatchedCrc),
        read_chunks_spec(data, pos) == Err::<Seq<ChunkV>, Error>(Error::MismatchedCrc),
{
}

/// A record that classifies as an unrecognized ancillary chunk is skipped:
/// reading the chunk stream continues past it and the chunk sequence —
/// and with it the decoded image — is exactly what it would have been had
/// reading started right after the record.
pub proof fn lemma_ancillary_ignored(data: Seq<u8>, pos: nat, newpos: nat)
    requires
        read_chunk_spec(data, pos) == Ok::<(ChunkV, nat), Error>((ChunkV::Skipped, newpos)),
    ensures
        read_chunks_spec(data, pos) == read_chunks_spec(data, newpos),
{
}

/// An unrecognized chunk type whose first letter is not lowercase — a
/// critical chunk the decoder does not implement — fails classification
/// with `Unimplemented`, whatever its payload.
pub proof fn lemma_unknown_critical(ty: Seq<u8>, payload: Seq<u8>)
    requires
        ty != ihdr_type(),
        ty != plte_type(),
        ty != idat_type(),
        ty != iend_type(),
        !is_ancillary(ty),
    ensures
        classify_spec(ty, payload) == Err::<ChunkV, Error>(Error::Unimplemented),
{
}

/// Splitting the payload of one compressed-data chunk into two adjacent
/// compressed-data chunks leaves the aggregated compressed stream
/// unchanged.
pub proof fn lemma_idat_split(prefix: Seq<ChunkV>, a: Seq<u8>, b: Seq<u8>, suffix: Seq<ChunkV>)
    ensures
        idat_concat(prefix + seq![ChunkV::Idat(a + b)] + suffix) == idat_concat(
            prefix + seq![ChunkV::Idat(a), ChunkV::Idat(b)] + suffix,
        ),
    decreases prefix.len(),
{
    let s1 = prefix + seq![ChunkV::Idat(a + b)] + suffix;
    let s2 = prefix + seq![ChunkV::Idat(a), ChunkV::Idat(b)] + suffix;
    if prefix.len() == 0 {
        let s3 = seq![ChunkV::Idat(b)] + suffix;
        assert(s1[0] == ChunkV::Idat(a + b));
        assert(s2[0] == ChunkV::Idat(a));
        assert(s3[0] == ChunkV::Idat(b));
        assert(s1.drop_first() =~= suffix);
        assert(s2.drop_first() =~= s3);
        assert(s3.drop_first() =~= suffix);
        assert(idat_concat(s3) == b + idat_concat(suffix));
        assert(idat_concat(s2) == a + idat_concat(s3));
        assert(idat_concat(s1) == (a + b) + idat_concat(suffix));
        assert((a + b) + idat_concat(suffix) =~= a + (b + idat_concat(suffix)));
    } else {
        lemma_idat_split(prefix.drop_first(), a, b, suffix);
        assert(s1[0] == prefix[0]);
        assert(s2[0] == prefix[0]);
        assert(s1.drop_first() =~= prefix.drop_first() + seq![ChunkV::Idat(a + b)] + suffix);
        assert(s2.drop_first() =~= prefix.drop_first() + seq![
            ChunkV::Idat(a),
            ChunkV::Idat(b),
        ] + suffix);
    }
}

/// Splitting a compressed-data chunk in two decodes identically: the
/// decode of a chunk sequence depends on the compressed data only through
/// the aggregated stream.
pub proof fn lemma_idat_split_decode(
    prefix: Seq<ChunkV>,
    a: Seq<u8>,
    b: Seq<u8>,
    suffix: Seq<ChunkV>,
)
    requires
        prefix.len() >= 1,
    ensures
        decode_chunks_spec(prefix + seq![ChunkV::Idat(a + b)] + suffix) == decode_chunks_spec(
            prefix + seq![ChunkV::Idat(a), ChunkV::Idat(b)] + suffix,
        ),
{
    let s1 = prefix + seq![ChunkV::Idat(a + b)] + suffix;
    let s2 = prefix + seq![ChunkV::Idat(a), ChunkV::Idat(b)] + suffix;
    assert(s1[0] == prefix[0]);
    assert(s2[0] == prefix[0]);
    assert(s1.drop_first() =~= prefix.drop_first() + seq![ChunkV::Idat(a + b)] + suffix);
    assert(s2.drop_first() =~= prefix.drop_first() + seq![
        ChunkV::Idat(a),
        ChunkV::Idat(b),
    ] + suffix);
    lemma_idat_split(prefix.drop_first(), a, b, suffix);
}

/// Reconstruction uses zero in place of every unavailable neighbour: the
/// left and upper-left neighbours within the leftmost pixel of a row, and
/// the above and upper-left neighbours in the first row.
pub proof fn lemma_missing_neighbors_zero(recon: Seq<u8>, stride: int, bpp: int, r: int, c: int)
    ensures
        c < bpp ==> left_ref(recon, stride, bpp, r, c) == 0,
        r == 0 ==> up_ref(recon, stride, r, c) == 0,
        (r == 0 || c < bpp) ==> upleft_ref(recon, stride, bpp, r, c) == 0,
{
}

} // verus!
