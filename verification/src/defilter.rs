//! Scanline reconstruction: undoing the per-row prediction filters.
//!
//! The inflated image data holds, per row, one filter-type byte followed by
//! `stride` filtered bytes. Reconstruction replaces each filtered byte by
//! its sum (modulo 256) with a predictor computed from up to three already
//! reconstructed neighbour bytes.

use vstd::prelude::*;

use crate::png::Error;

verus! {

/// The left neighbour of position (r, c): the reconstructed byte one pixel
/// to the left in the same row, or 0 when the column lies in the first pixel.
pub open spec fn left_ref(recon: Seq<u8>, stride: int, bpp: int, r: int, c: int) -> u8 {
    if c >= bpp {
        recon[r * stride + c - bpp]
    } else {
        0
    }
}

/// The neighbour directly above (r, c), or 0 in the first row.
pub open spec fn up_ref(recon: Seq<u8>, stride: int, r: int, c: int) -> u8 {
    if r > 0 {
        recon[(r - 1) * stride + c]
    } else {
        0
    }
}

/// The upper-left diagonal neighbour of (r, c), or 0 when either the row
/// above or the pixel to the left is missing.
pub open spec fn upleft_ref(recon: Seq<u8>, stride: int, bpp: int, r: int, c: int) -> u8 {
    if r > 0 && c >= bpp {
        recon[(r - 1) * stride + c - bpp]
    } else {
        0
    }
}

/// 8-bit wraparound sum of the three neighbours' Paeth combination input:
/// p = a + b - c modulo 256.
pub open spec fn paeth_p(a: u8, b: u8, c: u8) -> u8 {
    ((a + b - c + 256) % 256) as u8
}

/// Absolute difference of two bytes.
pub open spec fn byte_dist(x: u8, y: u8) -> u8 {
    if x >= y {
        (x - y) as u8
    } else {
        (y - x) as u8
    }
}

/// The Paeth predictor: whichever of a, b, c lies nearest to the
/// wrapped combination p = a + b - c, ties broken in the order a, b, c.
pub open spec fn paeth_spec(a: u8, b: u8, c: u8) -> u8 {
    let p = paeth_p(a, b, c);
    let pa = byte_dist(p, a);
    let pb = byte_dist(p, b);
    let pc = byte_dist(p, c);
    if pa <= pb && pa <= pc {
        a
    } else if pb <= pc {
        b
    } else {
        c
    }
}

/// The reconstructed byte for filter type `ft`: the filtered byte plus the
/// predictor, as unsigned 8-bit wraparound addition. The average predictor
/// divides in a wide intermediate, so it never wraps before the division.
pub open spec fn recon_byte(ft: u8, x: u8, a: u8, b: u8, c: u8) -> u8 {
    if ft == 0 {
        x
    } else if ft == 1 {
        ((x + a) % 256) as u8
    } else if ft == 2 {
        ((x + b) % 256) as u8
    } else if ft == 3 {
        ((x + (a + b) / 2) % 256) as u8
    } else {
        ((x + paeth_spec(a, b, c)) % 256) as u8
    }
}

/// Index of the filter-type byte of row r in the inflated data.
pub open spec fn filter_byte_at(data: Seq<u8>, stride: int, r: int) -> u8 {
    data[r * (stride + 1)]
}

/// The filtered byte of row r, column c in the inflated data.
pub open spec fn raw_byte_at(data: Seq<u8>, stride: int, r: int, c: int) -> u8 {
    data[r * (stride + 1) + 1 + c]
}

/// Every row among the first `height` rows carries a recognized filter type.
pub open spec fn filters_ok(data: Seq<u8>, stride: int, height: int) -> bool {
    forall|r: int| 0 <= r < height ==> filter_byte_at(data, stride, r) <= 4
}

/// The first n reconstructed bytes, row-major: each byte is the filtered
/// byte combined with the predictor over the bytes reconstructed before it.
pub open spec fn recon_seq(data: Seq<u8>, stride: int, bpp: int, n: nat) -> Seq<u8>
    decreases n,
{
    if n == 0 {
        Seq::empty()
    } else {
        let m = (n - 1) as int;
        let prev = recon_seq(data, stride, bpp, (n - 1) as nat);
        let r = m / stride;
        let c = m % stride;
        prev.push(
            recon_byte(
                filter_byte_at(data, stride, r),
                raw_byte_at(data, stride, r, c),
                left_ref(prev, stride, bpp, r, c),
                up_ref(prev, stride, r, c),
                upleft_ref(prev, stride, bpp, r, c),
            ),
        )
    }
}

pub proof fn lemma_recon_seq_len(data: Seq<u8>, stride: int, bpp: int, n: nat)
    ensures
        recon_seq(data, stride, bpp, n).len() == n,
    decreases n,
{
    if n > 0 {
        lemma_recon_seq_len(data, stride, bpp, (n - 1) as nat);
    }
}

proof fn lemma_row_col(r: int, c: int, stride: int)
    requires
        0 <= r,
        0 <= c < stride,
    ensures
        (r * stride + c) / stride == r,
        (r * stride + c) % stride == c,
{
    vstd::arithmetic::div_mod::lemma_fundamental_div_mod_converse(r * stride + c, stride, r, c);
}

/// Reconstructed byte one pixel to the left, same row; 0 when the column
/// lies within the leftmost pixel.
pub fn recon_a(recon: &[u8], stride: usize, bytes_per_pixel: usize, r: usize, c: usize) -> (x: u8)
    requires
        c < stride,
        bytes_per_pixel >= 1,
        r * stride + c <= recon@.len(),
    ensures
        x == left_ref(recon@, stride as int, bytes_per_pixel as int, r as int, c as int),
{
    let n: usize = recon.len();
    if c >= bytes_per_pixel {
        recon[r * stride + c - bytes_per_pixel]
    } else {
        0
    }
}

/// Reconstructed byte directly above, previous row; 0 in the first row.
pub fn recon_b(recon: &[u8], stride: usize, r: usize, c: usize) -> (x: u8)
    requires
        c < stride,
        r * stride + c <= recon@.len(),
    ensures
        x == up_ref(recon@, stride as int, r as int, c as int),
{
    let n: usize = recon.len();
    if r > 0 {
        proof {
            assert((r - 1) * stride == r * stride - stride) by (nonlinear_arith);
        }
        recon[(r - 1) * stride + c]
    } else {
        0
    }
}

/// Reconstructed byte diagonally up and left; 0 when either neighbour
/// direction is unavailable.
pub fn recon_c(recon: &[u8], stride: usize, bytes_per_pixel: usize, r: usize, c: usize) -> (x: u8)
    requires
        c < stride,
        bytes_per_pixel >= 1,
        r * stride + c <= recon@.len(),
    ensures
        x == upleft_ref(recon@, stride as int, bytes_per_pixel as int, r as int, c as int),
{
    let n: usize = recon.len();
    if r > 0 && c >= bytes_per_pixel {
        proof {
            assert((r - 1) * stride == r * stride - stride) by (nonlinear_arith);
        }
        recon[(r - 1) * stride + c - bytes_per_pixel]
    } else {
        0
    }
}

/// The Paeth predictor over the three neighbour bytes, with the wrapped
/// combination and the tie-breaking order fixed by `paeth_spec`.
pub fn paeth_predictor(a: u8, b: u8, c: u8) -> (r: u8)
    ensures
        r == paeth_spec(a, b, c),
{
    let p: u8 = (((a as u16 + b as u16 + 256) - c as u16) % 256) as u8;
    let pa: u8 = if p >= a { p - a } else { a - p };
    let pb: u8 = if p >= b { p - b } else { b - p };
    let pc: u8 = if p >= c { p - c } else { c - p };
    if pa <= pb && pa <= pc {
        a
    } else if pb <= pc {
        b
    } else {
        c
    }
}

/// Undo the per-row filters over `height` rows of `stride` bytes each.
/// Succeeds exactly when every row's filter-type byte is in {0,..,4}, and
/// then returns the reconstructed bytes; fails with `InvalidFilterType`
/// otherwise, as soon as the first unrecognized filter type is met.
pub fn defilter(data: &[u8], height: usize, stride: usize, bytes_per_pixel: usize) -> (res:
    Result<Vec<u8>, Error>)
    requires
        bytes_per_pixel >= 1,
        height * (stride + 1) <= data@.len(),
    ensures
        match res {
            Ok(v) => filters_ok(data@, stride as int, height as int) && v@ == recon_seq(
                data@,
                stride as int,
                bytes_per_pixel as int,
                (height * stride) as nat,
            ),
            Err(e) => e == Error::InvalidFilterType && !filters_ok(
                data@,
                stride as int,
                height as int,
            ),
        },
{
    let dlen: usize = data.len();
    let mut recon: Vec<u8> = Vec::new();
    let mut r: usize = 0;
    while r < height
        invariant
            bytes_per_pixel >= 1,
            r <= height,
            height * (stride + 1) <= data@.len(),
            data@.len() <= usize::MAX,
            recon@.len() == r * stride,
            recon@ == recon_seq(data@, stride as int, bytes_per_pixel as int, (r * stride) as nat),
            forall|r2: int| 0 <= r2 < r ==> filter_byte_at(data@, stride as int, r2) <= 4,
        decreases height - r,
    {
        proof {
            assert((r + 1) * (stride + 1) <= height * (stride + 1)) by (nonlinear_arith)
                requires
                    r < height,
            ;
            assert(r * (stride + 1) + (stride + 1) == (r + 1) * (stride + 1)) by (nonlinear_arith);
            assert(stride + 1 <= (r + 1) * (stride + 1)) by (nonlinear_arith);
        }
        let base: usize = r * (stride + 1);
        let ft: u8 = data[base];
        if ft > 4 {
            proof {
                assert(filter_byte_at(data@, stride as int, r as int) == ft);
            }
            return Err(Error::InvalidFilterType);
        }
        let mut c: usize = 0;
        while c < stride
            invariant
                bytes_per_pixel >= 1,
                r < height,
                c <= stride,
                height * (stride + 1) <= data@.len(),
                data@.len() <= usize::MAX,
                base == r * (stride + 1),
                base + stride + 1 <= data@.len(),
                ft == filter_byte_at(data@, stride as int, r as int),
                ft <= 4,
                recon@.len() == r * stride + c,
                recon@ == recon_seq(
                    data@,
                    stride as int,
                    bytes_per_pixel as int,
                    (r * stride + c) as nat,
                ),
            decreases stride - c,
        {
            let a = recon_a(recon.as_slice(), stride, bytes_per_pixel, r, c);
            let b = recon_b(recon.as_slice(), stride, r, c);
            let x: u8 = data[base + 1 + c];
            let pred: u8 = if ft == 0 {
                0
            } else if ft == 1 {
                a
            } else if ft == 2 {
                b
            } else if ft == 3 {
                ((a as u16 + b as u16) / 2) as u8
            } else {
                let cd = recon_c(recon.as_slice(), stride, bytes_per_pixel, r, c);
                paeth_predictor(a, b, cd)
            };
            let rb: u8 = ((x as u16 + pred as u16) % 256) as u8;
            proof {
                lemma_row_col(r as int, c as int, stride as int);
                let ghost cd_spec = upleft_ref(
                    recon@,
                    stride as int,
                    bytes_per_pixel as int,
                    r as int,
                    c as int,
                );
                assert(rb == recon_byte(ft, x, a, b, cd_spec));
                assert(raw_byte_at(data@, stride as int, r as int, c as int) == x);
            }
            recon.push(rb);
            c = c + 1;
        }
        proof {
            assert((r + 1) * stride == r * stride + stride) by (nonlinear_arith);
        }
        r = r + 1;
    }
    Ok(recon)
}

} // verus!
