//! A PNG decoder for 8-bit truecolor and truecolor-alpha images without
//! interlacing. Only the critical structural chunks are understood; every
//! deviation from the supported subset aborts the decode with an error.
//!
//! The wire format consumed is: an 8-byte signature, then a sequence of
//! chunks, each framed as length (4 bytes, big endian), type (4 ASCII
//! bytes), payload, CRC-32 (4 bytes, big endian, over type plus payload).
//! The compressed-data chunks hold one zlib stream of filtered scanlines.

use vstd::prelude::*;
use vstd::slice::{slice_subrange, slice_to_vec};

use crate::defilter::{defilter, filters_ok, recon_seq, lemma_recon_seq_len};
use crate::zlib::{crc32, crc32_of, inflate_of, zlib_inflate};

verus! {

/// Channel layout of a decoded image: truecolor or truecolor with alpha.
#[derive(Debug, Clone, Copy, PartialEq, Eq, Structural)]
pub enum PixelType {
    Rgb,
    Rgba,
}

impl PixelType {
    /// Bytes per pixel implied by the channel layout.
    pub open spec fn bytes_spec(self) -> u32 {
        match self {
            PixelType::Rgb => 3,
            PixelType::Rgba => 4,
        }
    }

    pub fn bytes(&self) -> (n: u32)
        ensures
            n == self.bytes_spec(),
    {
        match self {
            PixelType::Rgb => 3,
            PixelType::Rgba => 4,
        }
    }
}

/// One pixel: three or four channel bytes.
#[derive(Debug, Clone, Copy)]
pub enum Pixel {
    Rgb([u8; 3]),
    Rgba([u8; 4]),
}

impl View for Pixel {
    type V = Seq<u8>;

    open spec fn view(&self) -> Seq<u8> {
        match self {
            Pixel::Rgb(data) => data@,
            Pixel::Rgba(data) => data@,
        }
    }
}

impl Pixel {
    /// The channel bytes of the pixel, in order.
    pub fn raw(&self) -> (r: &[u8])
        ensures
            r@ == self@,
    {
        match self {
            Pixel::Rgb(data) => data.as_slice(),
            Pixel::Rgba(data) => data.as_slice(),
        }
    }
}

/// The closed set of decode failures. The first deviation from the
/// supported subset aborts the whole decode with one of these.
#[derive(Debug, Clone, Copy, PartialEq, Eq, Structural)]
pub enum Error {
    Io,
    InvalidSignature,
    InvalidStartingChunk,
    Unimplemented,
    InvalidIHDRLength,
    InvalidPLTESize,
    UnsupportedCompressionMethod,
    InvalidFilterType,
    MismatchedCrc,
}

/// The fixed 8-byte PNG signature.
pub open spec fn png_signature() -> Seq<u8> {
    seq![137u8, 80u8, 78u8, 71u8, 13u8, 10u8, 26u8, 10u8]
}

/// A big-endian 32-bit integer read from four bytes.
pub open spec fn be_u32_spec(s: Seq<u8>) -> u32
    recommends
        s.len() == 4,
{
    (s[0] * 0x1000000 + s[1] * 0x10000 + s[2] * 0x100 + s[3]) as u32
}

/// Reads the big-endian 32-bit integer at `pos`.
pub fn be_u32(data: &[u8], pos: usize) -> (r: u32)
    requires
        pos + 4 <= data@.len(),
    ensures
        r == be_u32_spec(data@.subrange(pos as int, pos as int + 4)),
{
    let _dlen: usize = data.len();
    let b0 = data[pos];
    let b1 = data[pos + 1];
    let b2 = data[pos + 2];
    let b3 = data[pos + 3];
    (b0 as u32) * 0x1000000 + (b1 as u32) * 0x10000 + (b2 as u32) * 0x100 + (b3 as u32)
}

/// The image header: geometry and the five raw single-byte fields.
#[derive(Debug, Clone, Copy)]
pub struct Ihdr {
    pub width: u32,
    pub height: u32,
    pub bit_depth: u8,
    pub colour_type: u8,
    pub compression_method: u8,
    pub filter_method: u8,
    pub interlace_method: u8,
}

/// Parsing the 13-byte header payload; any other length is rejected.
pub open spec fn ihdr_spec(data: Seq<u8>) -> Result<Ihdr, Error> {
    if data.len() != 13 {
        Err(Error::InvalidIHDRLength)
    } else {
        Ok(
            Ihdr {
                width: be_u32_spec(data.subrange(0, 4)),
                height: be_u32_spec(data.subrange(4, 8)),
                bit_depth: data[8],
                colour_type: data[9],
                compression_method: data[10],
                filter_method: data[11],
                interlace_method: data[12],
            },
        )
    }
}

/// The pixel type a colour type maps to: 2 is truecolor, 6 is truecolor
/// with alpha, everything else is out of scope.
pub open spec fn pixel_type_spec(colour_type: u8) -> Result<PixelType, Error> {
    if colour_type == 2 {
        Ok(PixelType::Rgb)
    } else if colour_type == 6 {
        Ok(PixelType::Rgba)
    } else {
        Err(Error::Unimplemented)
    }
}

impl Ihdr {
    pub fn from_data(data: &[u8]) -> (res: Result<Ihdr, Error>)
        ensures
            res == ihdr_spec(data@),
    {
        if data.len() != 13 {
            return Err(Error::InvalidIHDRLength);
        }
        let width = be_u32(data, 0);
        let height = be_u32(data, 4);
        Ok(
            Ihdr {
                width,
                height,
                bit_depth: data[8],
                colour_type: data[9],
                compression_method: data[10],
                filter_method: data[11],
                interlace_method: data[12],
            },
        )
    }

    pub fn pixel_type(&self) -> (res: Result<PixelType, Error>)
        ensures
            res == pixel_type_spec(self.colour_type),
    {
        if self.colour_type == 2 {
            Ok(PixelType::Rgb)
        } else if self.colour_type == 6 {
            Ok(PixelType::Rgba)
        } else {
            Err(Error::Unimplemented)
        }
    }
}

/// A structurally valid palette payload: a whole number of RGB triples,
/// between 1 and 256 of them.
pub open spec fn plte_ok(len: int) -> bool {
    len % 3 == 0 && 3 <= len <= 768
}

/// The palette entries of a payload, as byte triples in order.
pub open spec fn plte_entries_spec(data: Seq<u8>) -> Seq<Seq<u8>> {
    Seq::new((data.len() / 3) as nat, |i: int| data.subrange(3 * i, 3 * i + 3))
}

/// A palette: validated on entry, carried along, and not consulted during
/// pixel reconstruction for the supported truecolor pixel types.
#[derive(Debug)]
pub struct Plte {
    pub entries: Vec<Pixel>,
}

impl Plte {
    pub fn from_data(data: &[u8]) -> (res: Result<Plte, Error>)
        ensures
            match res {
                Ok(p) => plte_ok(data@.len() as int) && p.entries@.len() == data@.len() / 3
                    && forall|i: int|
                    0 <= i < p.entries@.len() ==> p.entries@[i]@ == plte_entries_spec(data@)[i],
                Err(e) => e == Error::InvalidPLTESize && !plte_ok(data@.len() as int),
            },
    {
        let len = data.len();
        let entry_count = len / 3;
        if len % 3 != 0 || entry_count < 1 || entry_count > 256 {
            return Err(Error::InvalidPLTESize);
        }
        let mut entries: Vec<Pixel> = Vec::new();
        let mut i: usize = 0;
        while i < entry_count
            invariant
                len == data@.len(),
                len % 3 == 0,
                1 <= entry_count <= 256,
                entry_count == len / 3,
                i <= entry_count,
                entries@.len() == i,
                forall|j: int|
                    0 <= j < i ==> entries@[j]@ == data@.subrange(3 * j, 3 * j + 3),
            decreases entry_count - i,
        {
            let p = Pixel::Rgb([data[i * 3], data[i * 3 + 1], data[i * 3 + 2]]);
            proof {
                assert(p@ =~= data@.subrange(3 * (i as int), 3 * (i as int) + 3));
            }
            entries.push(p);
            i = i + 1;
        }
        Ok(Plte { entries })
    }
}

/// A recognized chunk, carrying what the decode needs from it.
#[derive(Debug)]
pub enum Chunk {
    Ihdr(Ihdr),
    Plte(Plte),
    Idat(Vec<u8>),
    Iend,
}

/// Abstract chunk: what one framed record contributes to the decode.
/// `Skipped` stands for an unrecognized ancillary chunk, which contributes
/// nothing.
#[verifier::ext_equal]
pub enum ChunkV {
    Ihdr(Ihdr),
    Plte(Seq<Seq<u8>>),
    Idat(Seq<u8>),
    Iend,
    Skipped,
}

impl View for Chunk {
    type V = ChunkV;

    open spec fn view(&self) -> ChunkV {
        match self {
            Chunk::Ihdr(h) => ChunkV::Ihdr(*h),
            Chunk::Plte(p) => ChunkV::Plte(Seq::new(p.entries@.len(), |i: int| p.entries@[i]@)),
            Chunk::Idat(d) => ChunkV::Idat(d@),
            Chunk::Iend => ChunkV::Iend,
        }
    }
}

pub open spec fn ihdr_type() -> Seq<u8> {
    seq![73u8, 72u8, 68u8, 82u8]
}

pub open spec fn plte_type() -> Seq<u8> {
    seq![80u8, 76u8, 84u8, 69u8]
}

pub open spec fn idat_type() -> Seq<u8> {
    seq![73u8, 68u8, 65u8, 84u8]
}

pub open spec fn iend_type() -> Seq<u8> {
    seq![73u8, 69u8, 78u8, 68u8]
}

/// A chunk type code whose first letter is lowercase marks an ancillary
/// (optional) chunk; uppercase marks a critical one.
pub open spec fn is_ancillary(ty: Seq<u8>) -> bool {
    97 <= ty[0] <= 122
}

/// Classification of a framed record by its type code: the four recognized
/// codes parse into their chunk; an unrecognized ancillary code is skipped;
/// an unrecognized critical code is a fatal `Unimplemented`.
pub open spec fn classify_spec(ty: Seq<u8>, payload: Seq<u8>) -> Result<ChunkV, Error> {
    if ty == ihdr_type() {
        match ihdr_spec(payload) {
            Ok(h) => Ok(ChunkV::Ihdr(h)),
            Err(e) => Err(e),
        }
    } else if ty == plte_type() {
        if plte_ok(payload.len() as int) {
            Ok(ChunkV::Plte(plte_entries_spec(payload)))
        } else {
            Err(Error::InvalidPLTESize)
        }
    } else if ty == idat_type() {
        Ok(ChunkV::Idat(payload))
    } else if ty == iend_type() {
        Ok(ChunkV::Iend)
    } else if is_ancillary(ty) {
        Ok(ChunkV::Skipped)
    } else {
        Err(Error::Unimplemented)
    }
}

/// Compares a 4-byte type code with four literal bytes.
fn type_eq(t: &[u8; 4], a: u8, b: u8, c: u8, d: u8) -> (r: bool)
    ensures
        r <==> t@ == seq![a, b, c, d],
{
    let e = t[0] == a && t[1] == b && t[2] == c && t[3] == d;
    proof {
        if e {
            assert(t@ =~= seq![a, b, c, d]);
        } else {
            if t@ == seq![a, b, c, d] {
                assert(t@[0] == a && t@[1] == b && t@[2] == c && t@[3] == d);
            }
        }
    }
    e
}

/// One framed record read at `pos`: length, type, payload and checksum,
/// then the checksum test and the classification. `Io` stands for a read
/// past the end of the stream.
pub open spec fn read_chunk_spec(data: Seq<u8>, pos: nat) -> Result<(ChunkV, nat), Error> {
    if pos + 4 > data.len() {
        Err(Error::Io)
    } else {
        let len = be_u32_spec(data.subrange(pos as int, pos as int + 4)) as nat;
        if pos + 8 > data.len() {
            Err(Error::Io)
        } else {
            let ty = data.subrange(pos as int + 4, pos as int + 8);
            if pos + 8 + len > data.len() {
                Err(Error::Io)
            } else {
                let payload = data.subrange(pos as int + 8, pos as int + 8 + len);
                if pos + 12 + len > data.len() {
                    Err(Error::Io)
                } else {
                    let crc = be_u32_spec(
                        data.subrange(pos as int + 8 + len, pos as int + 12 + len),
                    );
                    if crc != crc32_of(ty + payload) {
                        Err(Error::MismatchedCrc)
                    } else {
                        match classify_spec(ty, payload) {
                            Ok(c) => Ok((c, (pos + 12 + len) as nat)),
                            Err(e) => Err(e),
                        }
                    }
                }
            }
        }
    }
}

pub proof fn lemma_read_chunk_advances(data: Seq<u8>, pos: nat)
    ensures
        read_chunk_spec(data, pos) matches Ok((c, newpos)) ==> pos < newpos <= data.len(),
{
}

impl Chunk {
    /// Classifies a record from its type code and payload, as
    /// `classify_spec` does; a skipped ancillary record returns `None`.
    pub fn from_raw(type_bytes: [u8; 4], data: Vec<u8>) -> (res: Result<Option<Chunk>, Error>)
        ensures
            match res {
                Ok(oc) => match oc {
                    Some(c) => classify_spec(type_bytes@, data@) == Ok::<ChunkV, Error>(c@),
                    None => classify_spec(type_bytes@, data@) == Ok::<ChunkV, Error>(
                        ChunkV::Skipped,
                    ),
                },
                Err(e) => classify_spec(type_bytes@, data@) == Err::<ChunkV, Error>(e),
            },
    {
        let is_optional = type_bytes[0] >= 97 && type_bytes[0] <= 122;
        if type_eq(&type_bytes, 73, 72, 68, 82) {
            match Ihdr::from_data(data.as_slice()) {
                Ok(h) => Ok(Some(Chunk::Ihdr(h))),
                Err(e) => Err(e),
            }
        } else if type_eq(&type_bytes, 80, 76, 84, 69) {
            match Plte::from_data(data.as_slice()) {
                Ok(p) => {
                    let c = Chunk::Plte(p);
                    proof {
                        assert(c@->Plte_0 =~= plte_entries_spec(data@));
                    }
                    Ok(Some(c))
                },
                Err(e) => Err(e),
            }
        } else if type_eq(&type_bytes, 73, 68, 65, 84) {
            Ok(Some(Chunk::Idat(data)))
        } else if type_eq(&type_bytes, 73, 69, 78, 68) {
            Ok(Some(Chunk::Iend))
        } else {
            if is_optional {
                Ok(None)
            } else {
                Err(Error::Unimplemented)
            }
        }
    }

    /// Reads one framed record at `pos`, checks its CRC-32 against the
    /// stored checksum, and classifies it.
    pub fn read(data: &[u8], pos: usize) -> (res: Result<(Option<Chunk>, usize), Error>)
        requires
            pos <= data@.len(),
        ensures
            match res {
                Ok((oc, newpos)) => pos < newpos <= data@.len() && (match oc {
                    Some(c) => read_chunk_spec(data@, pos as nat) == Ok::<(ChunkV, nat), Error>(
                        (c@, newpos as nat),
                    ),
                    None => read_chunk_spec(data@, pos as nat) == Ok::<(ChunkV, nat), Error>(
                        (ChunkV::Skipped, newpos as nat),
                    ),
                }),
                Err(e) => read_chunk_spec(data@, pos as nat) == Err::<(ChunkV, nat), Error>(e),
            },
    {
        let dlen: usize = data.len();
        let remaining = dlen - pos;
        if remaining < 12 {
            return Err(Error::Io);
        }
        let length_u32 = be_u32(data, pos);
        let length = length_u32 as usize;
        if length > remaining - 12 {
            return Err(Error::Io);
        }
        let ty_arr: [u8; 4] = [data[pos + 4], data[pos + 5], data[pos + 6], data[pos + 7]];
        let payload: Vec<u8> = slice_to_vec(slice_subrange(data, pos + 8, pos + 8 + length));
        let mut crc_input: Vec<u8> = Vec::new();
        crc_input.push(ty_arr[0]);
        crc_input.push(ty_arr[1]);
        crc_input.push(ty_arr[2]);
        crc_input.push(ty_arr[3]);
        extend_bytes(&mut crc_input, payload.as_slice());
        let computed = crc32(crc_input.as_slice());
        let stored = be_u32(data, pos + 8 + length);
        proof {
            assert(ty_arr@ =~= data@.subrange(pos as int + 4, pos as int + 8));
            assert(crc_input@ =~= data@.subrange(pos as int + 4, pos as int + 8) + data@.subrange(
                pos as int + 8,
                pos as int + 8 + length as int,
            ));
        }
        if stored != computed {
            return Err(Error::MismatchedCrc);
        }
        let newpos = pos + 12 + length;
        match Chunk::from_raw(ty_arr, payload) {
            Ok(Some(c)) => Ok((Some(c), newpos)),
            Ok(None) => Ok((None, newpos)),
            Err(e) => Err(e),
        }
    }
}

/// Appends the bytes of `src` to `dst`.
fn extend_bytes(dst: &mut Vec<u8>, src: &[u8])
    ensures
        final(dst)@ == old(dst)@ + src@,
{
    let slen: usize = src.len();
    proof {
        assert(dst@ =~= dst@ + src@.subrange(0, 0));
    }
    let mut i: usize = 0;
    while i < slen
        invariant
            slen == src@.len(),
            i <= slen,
            dst@ == old(dst)@ + src@.subrange(0, i as int),
        decreases slen - i,
    {
        dst.push(src[i]);
        proof {
            assert(old(dst)@ + src@.subrange(0, i + 1) =~= (old(dst)@ + src@.subrange(
                0,
                i as int,
            )).push(src@[i as int]));
        }
        i = i + 1;
    }
    proof {
        assert(src@.subrange(0, src@.len() as int) =~= src@);
    }
}

/// All the records of the stream from `pos` on, in order, up to and
/// including the terminator; skipped ancillary records contribute nothing.
pub open spec fn read_chunks_spec(data: Seq<u8>, pos: nat) -> Result<Seq<ChunkV>, Error>
    decreases data.len() - pos,
    via read_chunks_spec_dec
{
    match read_chunk_spec(data, pos) {
        Err(e) => Err(e),
        Ok((c, newpos)) => {
            if c is Iend {
                Ok(seq![ChunkV::Iend])
            } else {
                match read_chunks_spec(data, newpos) {
                    Err(e) => Err(e),
                    Ok(rest) => if c is Skipped {
                        Ok(rest)
                    } else {
                        Ok(seq![c] + rest)
                    },
                }
            }
        },
    }
}

#[via_fn]
proof fn read_chunks_spec_dec(data: Seq<u8>, pos: nat) {
    lemma_read_chunk_advances(data, pos);
}

/// The compressed image stream: the payloads of all compressed-data
/// chunks, concatenated in stream order.
pub open spec fn idat_concat(chunks: Seq<ChunkV>) -> Seq<u8>
    decreases chunks.len(),
{
    if chunks.len() == 0 {
        Seq::empty()
    } else {
        (match chunks[0] {
            ChunkV::Idat(d) => d,
            _ => Seq::empty(),
        }) + idat_concat(chunks.drop_first())
    }
}

/// Abstract image: geometry, pixel type, and the pixel grid with each
/// pixel as its channel bytes.
#[verifier::ext_equal]
pub struct ImageV {
    pub width: u32,
    pub height: u32,
    pub pixel_type: PixelType,
    pub pixels: Seq<Seq<Seq<u8>>>,
}

/// The pixel grid cut from the reconstructed bytes: row-major, one pixel
/// every `bpp` bytes.
pub open spec fn grid_spec(recon: Seq<u8>, width: int, height: int, bpp: int) -> Seq<
    Seq<Seq<u8>>,
> {
    Seq::new(
        height as nat,
        |y: int|
            Seq::new(
                width as nat,
                |x: int|
                    recon.subrange(
                        y * (width * bpp) + x * bpp,
                        y * (width * bpp) + x * bpp + bpp,
                    ),
            ),
    )
}

/// The decode of a chunk sequence: the header must come first; the
/// compressed-data payloads are concatenated, inflated, defiltered and cut
/// into pixels. A palette chunk is allowed and carried but not consulted.
pub open spec fn decode_chunks_spec(chunks: Seq<ChunkV>) -> Result<ImageV, Error> {
    if chunks.len() == 0 || !(chunks[0] is Ihdr) {
        Err(Error::InvalidStartingChunk)
    } else {
        let h = chunks[0]->Ihdr_0;
        let idat = idat_concat(chunks.drop_first());
        match pixel_type_spec(h.colour_type) {
            Err(e) => Err(e),
            Ok(pt) => if h.compression_method != 0 {
                Err(Error::UnsupportedCompressionMethod)
            } else {
                match inflate_of(idat) {
                    None => Err(Error::Io),
                    Some(raw) => {
                        let bpp = pt.bytes_spec() as int;
                        let stride = h.width * bpp;
                        if raw.len() < h.height * (stride + 1) {
                            Err(Error::Io)
                        } else if !filters_ok(raw, stride, h.height as int) {
                            Err(Error::InvalidFilterType)
                        } else {
                            Ok(
                                ImageV {
                                    width: h.width,
                                    height: h.height,
                                    pixel_type: pt,
                                    pixels: grid_spec(
                                        recon_seq(raw, stride, bpp, (h.height * stride) as nat),
                                        h.width as int,
                                        h.height as int,
                                        bpp,
                                    ),
                                },
                            )
                        }
                    },
                }
            },
        }
    }
}

/// The abstract chunks of a sequence of parsed chunks.
pub open spec fn chunks_view(cs: Seq<Chunk>) -> Seq<ChunkV> {
    Seq::new(cs.len(), |i: int| cs[i]@)
}

/// The whole decode of an input byte stream: signature, chunks, assembly.
pub open spec fn decode_spec(data: Seq<u8>) -> Result<ImageV, Error> {
    if data.len() < 8 || data.subrange(0, 8) != png_signature() {
        Err(Error::InvalidSignature)
    } else {
        match read_chunks_spec(data, 8) {
            Err(e) => Err(e),
            Ok(chunks) => decode_chunks_spec(chunks),
        }
    }
}

/// The view a pixel-grid vector denotes: each pixel as its channel bytes.
pub open spec fn rows_view(rows: Seq<Vec<Pixel>>) -> Seq<Seq<Seq<u8>>> {
    Seq::new(rows.len(), |y: int| Seq::new(rows[y]@.len(), |x: int| rows[y]@[x]@))
}

/// A decoded image: geometry, pixel type, and the row-major pixel grid
/// (outer length is the height, each row's length is the width).
#[derive(Debug)]
pub struct Image {
    pub width: u32,
    pub height: u32,
    pub pixel_type: PixelType,
    pub pixels: Vec<Vec<Pixel>>,
}

impl View for Image {
    type V = ImageV;

    open spec fn view(&self) -> ImageV {
        ImageV {
            width: self.width,
            height: self.height,
            pixel_type: self.pixel_type,
            pixels: rows_view(self.pixels@),
        }
    }
}

proof fn lemma_idat_concat_step(s: Seq<ChunkV>, j: int)
    requires
        0 <= j < s.len(),
    ensures
        idat_concat(s.skip(j)) == (match s[j] {
            ChunkV::Idat(d) => d,
            _ => Seq::empty(),
        }) + idat_concat(s.skip(j + 1)),
{
    assert(s.skip(j).len() > 0);
    assert(s.skip(j)[0] == s[j]);
    assert(s.skip(j).drop_first() =~= s.skip(j + 1));
}

impl Image {
    fn from_chunks(chunks: Vec<Chunk>) -> (res: Result<Image, Error>)
        ensures
            match res {
                Ok(img) => decode_chunks_spec(chunks_view(chunks@)) == Ok::<ImageV, Error>(img@),
                Err(e) => decode_chunks_spec(chunks_view(chunks@)) == Err::<ImageV, Error>(e),
            },
    {
        let ghost cv = chunks_view(chunks@);
        let n = chunks.len();
        if n == 0 {
            return Err(Error::InvalidStartingChunk);
        }
        let ihdr: Ihdr = match &chunks[0] {
            Chunk::Ihdr(h) => *h,
            _ => {
                return Err(Error::InvalidStartingChunk);
            },
        };
        let mut idat: Vec<u8> = Vec::new();
        proof {
            assert(cv.skip(1) =~= cv.drop_first());
            assert(idat@ + idat_concat(cv.skip(1)) =~= idat_concat(cv.skip(1)));
        }
        let mut i: usize = 1;
        while i < n
            invariant
                1 <= i <= n,
                n == chunks@.len(),
                cv == chunks_view(chunks@),
                cv.len() == n,
                idat@ + idat_concat(cv.skip(i as int)) == idat_concat(cv.skip(1)),
            decreases n - i,
        {
            let ghost idat_old = idat@;
            match &chunks[i] {
                Chunk::Idat(d) => {
                    extend_bytes(&mut idat, d.as_slice());
                    proof {
                        lemma_idat_concat_step(cv, i as int);
                        assert(cv[i as int] == chunks@[i as int]@);
                        assert(idat@ + idat_concat(cv.skip(i as int + 1)) =~= idat_old
                            + idat_concat(cv.skip(i as int)));
                    }
                },
                _ => {
                    proof {
                        lemma_idat_concat_step(cv, i as int);
                        assert(cv[i as int] == chunks@[i as int]@);
                        assert(!(cv[i as int] is Idat));
                        assert(idat@ + idat_concat(cv.skip(i as int + 1)) =~= idat_old
                            + idat_concat(cv.skip(i as int)));
                    }
                },
            }
            i = i + 1;
        }
        proof {
            assert(cv.skip(n as int) =~= Seq::<ChunkV>::empty());
            assert(idat@ + idat_concat(cv.skip(n as int)) =~= idat@);
        }
        let pt = match ihdr.pixel_type() {
            Ok(p) => p,
            Err(e) => {
                return Err(e);
            },
        };
        if ihdr.compression_method != 0 {
            return Err(Error::UnsupportedCompressionMethod);
        }
        let raw: Vec<u8> = match zlib_inflate(idat.as_slice()) {
            Some(v) => v,
            None => {
                return Err(Error::Io);
            },
        };
        let bpp32: u32 = pt.bytes();
        let stride64: u64 = (ihdr.width as u64) * (bpp32 as u64);
        proof {
            assert((ihdr.width as int) * (bpp32 as int) <= 0xffffffff * 4) by (nonlinear_arith)
                requires
                    ihdr.width <= 0xffffffffu32,
                    bpp32 <= 4,
            ;
            assert((ihdr.height as int) * ((stride64 as int) + 1) <= 0xffffffff * 0x400000001)
                by (nonlinear_arith)
                requires
                    ihdr.height <= 0xffffffffu32,
                    stride64 <= 0x3fffffffcu64,
            ;
        }
        let needed: u128 = (ihdr.height as u128) * ((stride64 as u128) + 1);
        let rlen: usize = raw.len();
        if (rlen as u128) < needed {
            return Err(Error::Io);
        }
        if ihdr.height == 0 {
            let pixels: Vec<Vec<Pixel>> = Vec::new();
            let img = Image { width: ihdr.width, height: ihdr.height, pixel_type: pt, pixels };
            proof {
                let bpp = pt.bytes_spec() as int;
                let stride = ihdr.width * bpp;
                assert(img@.pixels =~= grid_spec(
                    recon_seq(raw@, stride, bpp, (ihdr.height * stride) as nat),
                    ihdr.width as int,
                    ihdr.height as int,
                    bpp,
                ));
                assert(decode_chunks_spec(cv) =~~= Ok::<ImageV, Error>(img@));
            }
            return Ok(img);
        }
        proof {
            assert(1 * ((stride64 as int) + 1) <= (ihdr.height as int) * ((stride64 as int) + 1))
                by (nonlinear_arith)
                requires
                    ihdr.height >= 1,
            ;
        }
        let height_us: usize = ihdr.height as usize;
        let stride_us: usize = stride64 as usize;
        let bpp_us: usize = bpp32 as usize;
        let w_us: usize = ihdr.width as usize;
        let recon: Vec<u8> = match defilter(raw.as_slice(), height_us, stride_us, bpp_us) {
            Ok(v) => v,
            Err(e) => {
                return Err(e);
            },
        };
        proof {
            lemma_recon_seq_len(
                raw@,
                stride_us as int,
                bpp_us as int,
                (height_us * stride_us) as nat,
            );
        }
        let rn: usize = recon.len();
        let ghost target: Seq<Seq<Seq<u8>>> = grid_spec(
            recon@,
            w_us as int,
            height_us as int,
            bpp_us as int,
        );
        let mut pixels: Vec<Vec<Pixel>> = Vec::new();
        let mut y: usize = 0;
        while y < height_us
            invariant
                y <= height_us,
                pixels@.len() == y,
                recon@.len() == rn,
                recon@.len() == height_us * stride_us,
                stride_us == w_us * bpp_us,
                bpp_us == pt.bytes_spec(),
                1 <= bpp_us <= 4,
                target == grid_spec(recon@, w_us as int, height_us as int, bpp_us as int),
                forall|y2: int| 0 <= y2 < y ==> #[trigger] pixels@[y2]@.len() == w_us,
                forall|y2: int, x2: int|
                    0 <= y2 < y && 0 <= x2 < w_us ==> #[trigger] pixels@[y2]@[x2]@
                        == recon@.subrange(
                        y2 * (w_us * bpp_us) + x2 * bpp_us,
                        y2 * (w_us * bpp_us) + x2 * bpp_us + bpp_us,
                    ),
            decreases height_us - y,
        {
            let mut row: Vec<Pixel> = Vec::new();
            let mut x: usize = 0;
            while x < w_us
                invariant
                    y < height_us,
                    x <= w_us,
                    row@.len() == x,
                    recon@.len() == rn,
                    recon@.len() == height_us * stride_us,
                    stride_us == w_us * bpp_us,
                    bpp_us == pt.bytes_spec(),
                    1 <= bpp_us <= 4,
                    forall|x2: int|
                        0 <= x2 < x ==> #[trigger] row@[x2]@ == recon@.subrange(
                            y * (w_us * bpp_us) + x2 * bpp_us,
                            y * (w_us * bpp_us) + x2 * bpp_us + bpp_us,
                        ),
                decreases w_us - x,
            {
                proof {
                    assert((x + 1) * bpp_us <= w_us * bpp_us) by (nonlinear_arith)
                        requires
                            x < w_us,
                            bpp_us >= 0,
                    ;
                    assert(x * bpp_us + bpp_us == (x + 1) * bpp_us) by (nonlinear_arith);
                    assert(y * stride_us + stride_us == (y + 1) * stride_us) by (nonlinear_arith);
                    assert((y + 1) * stride_us <= height_us * stride_us) by (nonlinear_arith)
                        requires
                            y < height_us,
                            stride_us >= 0,
                    ;
                }
                let idx = y * stride_us + x * bpp_us;
                let px: Pixel = match pt {
                    PixelType::Rgb => Pixel::Rgb([recon[idx], recon[idx + 1], recon[idx + 2]]),
                    PixelType::Rgba => Pixel::Rgba(
                        [recon[idx], recon[idx + 1], recon[idx + 2], recon[idx + 3]],
                    ),
                };
                proof {
                    assert(px@ =~= recon@.subrange(idx as int, idx as int + bpp_us as int));
                }
                row.push(px);
                x = x + 1;
            }
            pixels.push(row);
            y = y + 1;
        }
        let img = Image { width: ihdr.width, height: ihdr.height, pixel_type: pt, pixels };
        proof {
            assert forall|y2: int| 0 <= y2 < height_us implies rows_view(img.pixels@)[y2]
                =~= target[y2] by {
                assert(img.pixels@[y2]@.len() == w_us);
            }
            assert(rows_view(img.pixels@) =~~= target);
            assert(decode_chunks_spec(cv) =~~= Ok::<ImageV, Error>(img@));
        }
        Ok(img)
    }

    /// Decodes a PNG byte stream into an image. The result is exactly what
    /// `decode_spec` assigns to the input bytes: the image on success, and
    /// on failure the error of the first deviation met.
    pub fn read(data: &[u8]) -> (res: Result<Image, Error>)
        ensures
            match res {
                Ok(img) => decode_spec(data@) == Ok::<ImageV, Error>(img@),
                Err(e) => decode_spec(data@) == Err::<ImageV, Error>(e),
            },
    {
        let dlen: usize = data.len();
        if dlen < 8 {
            return Err(Error::InvalidSignature);
        }
        let sig_ok = data[0] == 137 && data[1] == 80 && data[2] == 78 && data[3] == 71 && data[4]
            == 13 && data[5] == 10 && data[6] == 26 && data[7] == 10;
        proof {
            assert(data@.subrange(0, 8)[0] == data@[0]);
            assert(data@.subrange(0, 8)[1] == data@[1]);
            assert(data@.subrange(0, 8)[2] == data@[2]);
            assert(data@.subrange(0, 8)[3] == data@[3]);
            assert(data@.subrange(0, 8)[4] == data@[4]);
            assert(data@.subrange(0, 8)[5] == data@[5]);
            assert(data@.subrange(0, 8)[6] == data@[6]);
            assert(data@.subrange(0, 8)[7] == data@[7]);
        }
        if !sig_ok {
            return Err(Error::InvalidSignature);
        }
        proof {
            assert(data@.subrange(0, 8) =~= png_signature());
        }
        let mut chunks: Vec<Chunk> = Vec::new();
        let mut pos: usize = 8;
        loop
            invariant_except_break
                8 <= pos <= data@.len(),
                data@.len() >= 8,
                data@.subrange(0, 8) == png_signature(),
                forall|j: int| 0 <= j < chunks@.len() ==> !(#[trigger] chunks@[j]@ is Iend),
                match read_chunks_spec(data@, pos as nat) {
                    Ok(rest) => read_chunks_spec(data@, 8) == Ok::<Seq<ChunkV>, Error>(
                        chunks_view(chunks@) + rest,
                    ),
                    Err(e) => read_chunks_spec(data@, 8) == Err::<Seq<ChunkV>, Error>(e),
                },
            ensures
                read_chunks_spec(data@, 8) == Ok::<Seq<ChunkV>, Error>(chunks_view(chunks@)),
            decreases data@.len() - pos,
        {
            let ghost cv_old = chunks_view(chunks@);
            match Chunk::read(data, pos) {
                Err(e) => {
                    return Err(e);
                },
                Ok((oc, newpos)) => {
                    match oc {
                        None => {
                            pos = newpos;
                        },
                        Some(c) => {
                            let is_end = matches!(&c, Chunk::Iend);
                            let ghost gc = c@;
                            proof {
                                assert(!(gc is Skipped));
                                assert(is_end <==> gc is Iend);
                            }
                            chunks.push(c);
                            proof {
                                assert(chunks_view(chunks@) =~= cv_old + seq![gc]);
                            }
                            if is_end {
                                proof {
                                    assert(cv_old + seq![ChunkV::Iend] =~= chunks_view(chunks@));
                                }
                                break ;
                            }
                            proof {
                                if read_chunks_spec(data@, newpos as nat) is Ok {
                                    let rest = read_chunks_spec(data@, newpos as nat)->Ok_0;
                                    assert(cv_old + (seq![gc] + rest) =~= (cv_old + seq![gc])
                                        + rest);
                                }
                            }
                            pos = newpos;
                        },
                    }
                },
            }
        }
        Self::from_chunks(chunks)
    }
}

} // verus!
