use std::io::Write;

use flate2::write::ZlibEncoder;
use flate2::{Compression, Crc};

use tinypng::png::{Error, Image, PixelType};

fn crc32(bytes: &[u8]) -> u32 {
    let mut c = Crc::new();
    c.update(bytes);
    c.sum()
}

fn chunk(ty: &[u8; 4], payload: &[u8]) -> Vec<u8> {
    let mut out = Vec::new();
    out.extend_from_slice(&(payload.len() as u32).to_be_bytes());
    out.extend_from_slice(ty);
    out.extend_from_slice(payload);
    let mut checked = ty.to_vec();
    checked.extend_from_slice(payload);
    out.extend_from_slice(&crc32(&checked).to_be_bytes());
    out
}

fn ihdr_payload(w: u32, h: u32, colour: u8, compression: u8) -> Vec<u8> {
    let mut p = Vec::new();
    p.extend_from_slice(&w.to_be_bytes());
    p.extend_from_slice(&h.to_be_bytes());
    p.push(8);
    p.push(colour);
    p.push(compression);
    p.push(0);
    p.push(0);
    p
}

fn deflate(raw: &[u8]) -> Vec<u8> {
    let mut enc = ZlibEncoder::new(Vec::new(), Compression::default());
    enc.write_all(raw).unwrap();
    enc.finish().unwrap()
}

fn png_bytes(chunks: &[Vec<u8>]) -> Vec<u8> {
    let mut out = vec![0x89, b'P', b'N', b'G', b'\r', b'\n', 0x1a, b'\n'];
    for c in chunks {
        out.extend_from_slice(c);
    }
    out
}

/// Scanlines of the 2x2 truecolor image used across several tests, with
/// filter type None on both rows.
fn scanlines_2x2_none() -> Vec<u8> {
    vec![
        0, 255, 0, 0, 0, 255, 0, //
        0, 0, 0, 255, 255, 255, 255,
    ]
}

fn simple_png(scanlines: &[u8]) -> Vec<u8> {
    png_bytes(&[
        chunk(b"IHDR", &ihdr_payload(2, 2, 2, 0)),
        chunk(b"IDAT", &deflate(scanlines)),
        chunk(b"IEND", b""),
    ])
}

fn assert_2x2_pixels(img: &Image) {
    assert_eq!(img.width, 2);
    assert_eq!(img.height, 2);
    assert!(matches!(img.pixel_type, PixelType::Rgb));
    assert_eq!(img.pixels.len(), 2);
    assert_eq!(img.pixels[0].len(), 2);
    assert_eq!(img.pixels[1].len(), 2);
    assert_eq!(img.pixels[0][0].raw(), &[255, 0, 0][..]);
    assert_eq!(img.pixels[0][1].raw(), &[0, 255, 0][..]);
    assert_eq!(img.pixels[1][0].raw(), &[0, 0, 255][..]);
    assert_eq!(img.pixels[1][1].raw(), &[255, 255, 255][..]);
}

#[test]
fn decode_2x2_truecolor_none() {
    let data = simple_png(&scanlines_2x2_none());
    let img = Image::read(&data).unwrap();
    assert_2x2_pixels(&img);
}

#[test]
fn decode_2x2_truecolor_sub_second_row() {
    // Row 2 re-encoded with the Sub filter: each byte minus its left
    // neighbour (zero within the first pixel).
    let scanlines = vec![
        0, 255, 0, 0, 0, 255, 0, //
        1, 0, 0, 255, 255, 255, 0,
    ];
    let data = simple_png(&scanlines);
    let img = Image::read(&data).unwrap();
    assert_2x2_pixels(&img);
}

#[test]
fn decode_2x2_truecolor_up_second_row() {
    // Row 2 re-encoded with the Up filter: each byte minus the byte above.
    // raw row 2 = [0,0,255, 255,255,255], row 1 = [255,0,0, 0,255,0].
    let scanlines = vec![
        0, 255, 0, 0, 0, 255, 0, //
        2, 1, 0, 255, 255, 0, 255,
    ];
    let data = simple_png(&scanlines);
    let img = Image::read(&data).unwrap();
    assert_2x2_pixels(&img);
}

#[test]
fn decode_2x2_truecolor_average_second_row() {
    // Row 2 with the Average filter: each byte minus (left + above) / 2.
    // Column by column: a = [0,0,0, 0,0,255] (left), b = row 1 above.
    // raw2 - (a+b)/2 = [0-127, 0-0, 255-0, 255-0, 255-127, 255-127]
    let scanlines = vec![
        0, 255, 0, 0, 0, 255, 0, //
        3, 129, 0, 255, 255, 128, 128,
    ];
    let data = simple_png(&scanlines);
    let img = Image::read(&data).unwrap();
    assert_2x2_pixels(&img);
}

#[test]
fn decode_2x2_truecolor_paeth_second_row() {
    // Row 2 with the Paeth filter. For each byte the predictor is the
    // nearest of a (left), b (above), c (upper left) to p = a + b - c
    // modulo 256, ties to a then b.
    // c = 0 for the first pixel: p = a + b, predictor b when a == 0.
    // Column-wise predictors: [255, 0, 0, 0, 255, 255] (computed by hand).
    let scanlines = vec![
        0, 255, 0, 0, 0, 255, 0, //
        4, 1, 0, 255, 255, 0, 0,
    ];
    let data = simple_png(&scanlines);
    let img = Image::read(&data).unwrap();
    assert_2x2_pixels(&img);
}

#[test]
fn decode_rgba_single_idat() {
    // 1x2 truecolor-alpha image, filter None.
    let scanlines = vec![
        0, 10, 20, 30, 40, //
        0, 50, 60, 70, 80,
    ];
    let data = png_bytes(&[
        chunk(b"IHDR", &ihdr_payload(1, 2, 6, 0)),
        chunk(b"IDAT", &deflate(&scanlines)),
        chunk(b"IEND", b""),
    ]);
    let img = Image::read(&data).unwrap();
    assert_eq!(img.width, 1);
    assert_eq!(img.height, 2);
    assert!(matches!(img.pixel_type, PixelType::Rgba));
    assert_eq!(img.pixels[0][0].raw(), &[10, 20, 30, 40][..]);
    assert_eq!(img.pixels[1][0].raw(), &[50, 60, 70, 80][..]);
}

#[test]
fn split_idat_decodes_identically() {
    let compressed = deflate(&scanlines_2x2_none());
    let (first, second) = compressed.split_at(3);
    let data = png_bytes(&[
        chunk(b"IHDR", &ihdr_payload(2, 2, 2, 0)),
        chunk(b"IDAT", first),
        chunk(b"IDAT", second),
        chunk(b"IEND", b""),
    ]);
    let img = Image::read(&data).unwrap();
    assert_2x2_pixels(&img);
}

#[test]
fn ancillary_chunk_between_recognized_chunks_is_ignored() {
    let data = png_bytes(&[
        chunk(b"IHDR", &ihdr_payload(2, 2, 2, 0)),
        chunk(b"tEXt", b"comment\x00ignored"),
        chunk(b"IDAT", &deflate(&scanlines_2x2_none())),
        chunk(b"eXtr", &[1, 2, 3]),
        chunk(b"IEND", b""),
    ]);
    let img = Image::read(&data).unwrap();
    assert_2x2_pixels(&img);
}

#[test]
fn unknown_critical_chunk_is_unimplemented() {
    let data = png_bytes(&[
        chunk(b"IHDR", &ihdr_payload(2, 2, 2, 0)),
        chunk(b"ABCD", &[1, 2, 3]),
        chunk(b"IDAT", &deflate(&scanlines_2x2_none())),
        chunk(b"IEND", b""),
    ]);
    assert_eq!(Image::read(&data).unwrap_err(), Error::Unimplemented);
}

#[test]
fn palette_is_validated_and_not_consulted() {
    // A palette is legal in truecolor images; it must parse and have no
    // effect on the pixels.
    let data = png_bytes(&[
        chunk(b"IHDR", &ihdr_payload(2, 2, 2, 0)),
        chunk(b"PLTE", &[1, 2, 3, 4, 5, 6]),
        chunk(b"IDAT", &deflate(&scanlines_2x2_none())),
        chunk(b"IEND", b""),
    ]);
    let img = Image::read(&data).unwrap();
    assert_2x2_pixels(&img);
}

#[test]
fn bit_flip_in_type_yields_mismatched_crc() {
    let mut data = simple_png(&scanlines_2x2_none());
    // Offset 12 is the first byte of the IHDR chunk's type code.
    data[12] ^= 0x01;
    assert_eq!(Image::read(&data).unwrap_err(), Error::MismatchedCrc);
}

#[test]
fn bit_flip_in_payload_yields_mismatched_crc() {
    let mut data = simple_png(&scanlines_2x2_none());
    // Offset 16 is the first payload byte of the IHDR chunk.
    data[16] ^= 0x80;
    assert_eq!(Image::read(&data).unwrap_err(), Error::MismatchedCrc);
}

#[test]
fn truncated_signature_yields_invalid_signature() {
    let data = simple_png(&scanlines_2x2_none());
    for cut in 0..8 {
        assert_eq!(Image::read(&data[..cut]).unwrap_err(), Error::InvalidSignature);
    }
}

#[test]
fn altered_signature_byte_yields_invalid_signature() {
    for i in 0..8 {
        let mut data = simple_png(&scanlines_2x2_none());
        data[i] = data[i].wrapping_add(1);
        assert_eq!(Image::read(&data).unwrap_err(), Error::InvalidSignature);
    }
}

#[test]
fn truncated_chunk_yields_io() {
    let data = simple_png(&scanlines_2x2_none());
    // Cut in the middle of the IDAT chunk.
    assert_eq!(Image::read(&data[..data.len() - 20]).unwrap_err(), Error::Io);
}

#[test]
fn missing_terminator_yields_io() {
    let data = png_bytes(&[
        chunk(b"IHDR", &ihdr_payload(2, 2, 2, 0)),
        chunk(b"IDAT", &deflate(&scanlines_2x2_none())),
    ]);
    assert_eq!(Image::read(&data).unwrap_err(), Error::Io);
}

#[test]
fn corrupt_zlib_stream_yields_io() {
    let data = png_bytes(&[
        chunk(b"IHDR", &ihdr_payload(2, 2, 2, 0)),
        chunk(b"IDAT", &[7, 7, 7, 7, 7, 7]),
        chunk(b"IEND", b""),
    ]);
    assert_eq!(Image::read(&data).unwrap_err(), Error::Io);
}

#[test]
fn short_inflated_data_yields_io() {
    // Valid zlib stream holding fewer bytes than the scanlines need.
    let data = png_bytes(&[
        chunk(b"IHDR", &ihdr_payload(2, 2, 2, 0)),
        chunk(b"IDAT", &deflate(&[0, 255, 0, 0])),
        chunk(b"IEND", b""),
    ]);
    assert_eq!(Image::read(&data).unwrap_err(), Error::Io);
}

#[test]
fn wrong_ihdr_length_yields_invalid_ihdr_length() {
    let mut payload = ihdr_payload(2, 2, 2, 0);
    payload.pop();
    let data = png_bytes(&[
        chunk(b"IHDR", &payload),
        chunk(b"IDAT", &deflate(&scanlines_2x2_none())),
        chunk(b"IEND", b""),
    ]);
    assert_eq!(Image::read(&data).unwrap_err(), Error::InvalidIHDRLength);
}

#[test]
fn wrong_palette_size_yields_invalid_plte_size() {
    let data = png_bytes(&[
        chunk(b"IHDR", &ihdr_payload(2, 2, 2, 0)),
        chunk(b"PLTE", &[1, 2, 3, 4]),
        chunk(b"IDAT", &deflate(&scanlines_2x2_none())),
        chunk(b"IEND", b""),
    ]);
    assert_eq!(Image::read(&data).unwrap_err(), Error::InvalidPLTESize);
}

#[test]
fn empty_palette_yields_invalid_plte_size() {
    let data = png_bytes(&[
        chunk(b"IHDR", &ihdr_payload(2, 2, 2, 0)),
        chunk(b"PLTE", b""),
        chunk(b"IDAT", &deflate(&scanlines_2x2_none())),
        chunk(b"IEND", b""),
    ]);
    assert_eq!(Image::read(&data).unwrap_err(), Error::InvalidPLTESize);
}

#[test]
fn oversized_palette_yields_invalid_plte_size() {
    // 257 entries: one triple past the 256-entry limit.
    let payload = vec![0u8; 257 * 3];
    let data = png_bytes(&[
        chunk(b"IHDR", &ihdr_payload(2, 2, 2, 0)),
        chunk(b"PLTE", &payload),
        chunk(b"IDAT", &deflate(&scanlines_2x2_none())),
        chunk(b"IEND", b""),
    ]);
    assert_eq!(Image::read(&data).unwrap_err(), Error::InvalidPLTESize);
}

#[test]
fn largest_palette_is_accepted() {
    let payload = vec![7u8; 256 * 3];
    let data = png_bytes(&[
        chunk(b"IHDR", &ihdr_payload(2, 2, 2, 0)),
        chunk(b"PLTE", &payload),
        chunk(b"IDAT", &deflate(&scanlines_2x2_none())),
        chunk(b"IEND", b""),
    ]);
    let img = Image::read(&data).unwrap();
    assert_2x2_pixels(&img);
}

#[test]
fn indexed_colour_type_yields_unimplemented() {
    let data = png_bytes(&[
        chunk(b"IHDR", &ihdr_payload(2, 2, 3, 0)),
        chunk(b"IDAT", &deflate(&scanlines_2x2_none())),
        chunk(b"IEND", b""),
    ]);
    assert_eq!(Image::read(&data).unwrap_err(), Error::Unimplemented);
}

#[test]
fn nonzero_compression_method_yields_unsupported() {
    let data = png_bytes(&[
        chunk(b"IHDR", &ihdr_payload(2, 2, 2, 1)),
        chunk(b"IDAT", &deflate(&scanlines_2x2_none())),
        chunk(b"IEND", b""),
    ]);
    assert_eq!(
        Image::read(&data).unwrap_err(),
        Error::UnsupportedCompressionMethod
    );
}

#[test]
fn unrecognized_filter_type_yields_invalid_filter_type() {
    let scanlines = vec![
        0, 255, 0, 0, 0, 255, 0, //
        5, 0, 0, 255, 255, 255, 255,
    ];
    let data = simple_png(&scanlines);
    assert_eq!(Image::read(&data).unwrap_err(), Error::InvalidFilterType);
}

#[test]
fn chunk_stream_not_starting_with_header_is_rejected() {
    let data = png_bytes(&[
        chunk(b"IDAT", &deflate(&scanlines_2x2_none())),
        chunk(b"IHDR", &ihdr_payload(2, 2, 2, 0)),
        chunk(b"IEND", b""),
    ]);
    assert_eq!(Image::read(&data).unwrap_err(), Error::InvalidStartingChunk);
}

#[test]
fn zero_height_image_decodes_to_no_rows() {
    let data = png_bytes(&[
        chunk(b"IHDR", &ihdr_payload(2, 0, 2, 0)),
        chunk(b"IDAT", &deflate(b"")),
        chunk(b"IEND", b""),
    ]);
    let img = Image::read(&data).unwrap();
    assert_eq!(img.width, 2);
    assert_eq!(img.height, 0);
    assert_eq!(img.pixels.len(), 0);
}
