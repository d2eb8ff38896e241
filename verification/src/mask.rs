//! The raw segmentation mask and its normalization to a dense binary mask.
//!
//! A segmentation capability hands back a single-channel byte buffer whose
//! rows may carry alignment padding (`bytes_per_row` may exceed
//! `width * bytes_per_pixel`). Extraction walks the buffer stride-aware and
//! binarizes every sample: any positive sample becomes 255, zero stays 0.

use vstd::prelude::*;
use vstd::arithmetic::div_mod::{
    lemma_fundamental_div_mod, lemma_fundamental_div_mod_converse_div,
    lemma_fundamental_div_mod_converse_mod, lemma_multiply_divide_lt,
};
use vstd::arithmetic::mul::lemma_mul_inequality;

verus! {

/// The failure taxonomy of the background-removal pipeline.
#[derive(Debug)]
pub enum MaskError {
    /// The source bytes are not a valid image container, or they decode to a
    /// zero-area image, or the decoded raster would not fit in memory.
    DecodeError,
    /// Segmentation reported zero candidate instances.
    NoSubjectDetected,
    /// The segmentation capability could not be invoked or reported a
    /// platform-level error; carries a description when one is available.
    ServiceUnavailable(String),
    /// The raw mask buffer has a degenerate stride or width.
    InvalidBufferLayout,
    /// The final raster failed to encode.
    EncodeError,
}

/// A raw single-channel mask buffer as a segmentation capability delivers it:
/// a byte buffer with row stride metadata. The buffer must hold at least
/// `height * bytes_per_row` bytes; rows may end in alignment padding.
pub struct RawMaskBuffer {
    pub data: Vec<u8>,
    pub width: usize,
    pub height: usize,
    pub bytes_per_row: usize,
}

impl RawMaskBuffer {
    /// The buffer covers every row it claims, and its dimensions are small
    /// enough to express as pixel counts.
    pub open spec fn wf(&self) -> bool {
        &&& self.data@.len() >= self.height * self.bytes_per_row
        &&& self.width <= u32::MAX
        &&& self.height <= u32::MAX
    }
}

/// Whether the stride metadata admits sampling at all: a positive width and a
/// derived `bytes_per_pixel = bytes_per_row / width` of at least one.
pub open spec fn layout_valid(width: int, bytes_per_row: int) -> bool {
    width > 0 && bytes_per_row / width > 0
}

/// The binarized sample of the raw buffer at column `x`, row `y`: 255 where
/// the first channel of the sample is positive, 0 where it is zero.
pub open spec fn extracted_at(data: Seq<u8>, width: int, bytes_per_row: int, x: int, y: int) -> u8 {
    if data[y * bytes_per_row + x * (bytes_per_row / width)] > 0 {
        255u8
    } else {
        0u8
    }
}

/// The dense row-major binary mask that extraction produces from a raw
/// buffer with this data and layout.
pub open spec fn normalized_mask_seq(data: Seq<u8>, width: int, height: int, bytes_per_row: int) -> Seq<u8> {
    Seq::new(
        (width * height) as nat,
        |i: int| extracted_at(data, width, bytes_per_row, i % width, i / width),
    )
}

/// Normalizes a raw, possibly padded mask buffer into a dense row-major
/// binary mask of `width * height` elements, each 0 or 255.
///
/// Fails with `InvalidBufferLayout`, before any sampling, exactly when
/// `width == 0` or `bytes_per_row / width == 0`.
pub fn extract_mask(buf: &RawMaskBuffer) -> (r: Result<Vec<u8>, MaskError>)
    requires
        buf.wf(),
    ensures
        r is Ok <==> layout_valid(buf.width as int, buf.bytes_per_row as int),
        r matches Err(e) ==> e is InvalidBufferLayout,
        r matches Ok(m) ==> {
            &&& m@.len() == buf.width * buf.height
            &&& m@ == normalized_mask_seq(
                buf.data@,
                buf.width as int,
                buf.height as int,
                buf.bytes_per_row as int,
            )
            &&& forall|x: int, y: int|
                0 <= x < buf.width && 0 <= y < buf.height ==> m@[y * buf.width + x]
                    == extracted_at(buf.data@, buf.width as int, buf.bytes_per_row as int, x, y)
            &&& forall|i: int| 0 <= i < m@.len() ==> m@[i] == 0 || m@[i] == 255
        },
{
    let width = buf.width;
    let height = buf.height;
    let bpr = buf.bytes_per_row;
    if width == 0 {
        return Err(MaskError::InvalidBufferLayout);
    }
    let bpp = bpr / width;
    if bpp == 0 {
        return Err(MaskError::InvalidBufferLayout);
    }
    let dlen = buf.data.len();
    proof {
        // One stride holds a full row of samples: bytes_per_row splits into
        // width * bytes_per_pixel plus a non-negative remainder.
        lemma_fundamental_div_mod(bpr as int, width as int);
        assert(width * bpp <= bpr);
        assert(width <= width * bpp) by (nonlinear_arith)
            requires bpp >= 1, width >= 0;
        assert(width * height <= bpr * height) by (nonlinear_arith)
            requires width <= bpr, height >= 0;
        assert(bpr * height == height * bpr) by (nonlinear_arith);
        assert(height * bpr <= dlen);
    }
    let total = width * height;
    let mut out: Vec<u8> = Vec::new();
    let mut i: usize = 0;
    while i < total
        invariant
            buf.wf(),
            width == buf.width,
            height == buf.height,
            bpr == buf.bytes_per_row,
            width > 0,
            bpp == bpr as int / width as int,
            bpp > 0,
            width * bpp <= bpr,
            total == width * height,
            total <= buf.data@.len(),
            dlen == buf.data@.len(),
            height * bpr <= dlen,
            i <= total,
            out@.len() == i,
            forall|j: int|
                0 <= j < i ==> out@[j] == extracted_at(
                    buf.data@,
                    width as int,
                    bpr as int,
                    j % (width as int),
                    j / (width as int),
                ),
            forall|j: int| 0 <= j < out@.len() ==> out@[j] == 0 || out@[j] == 255,
        decreases total - i,
    {
        let y = i / width;
        let x = i % width;
        proof {
            lemma_multiply_divide_lt(i as int, width as int, height as int);
            // The sample index stays inside the buffer:
            // y * bpr + x * bpp <= (height - 1) * bpr + (width - 1) * bpp
            //                    < height * bpr <= data.len().
            lemma_mul_inequality(y as int, height as int - 1, bpr as int);
            lemma_mul_inequality(x as int, width as int - 1, bpp as int);
            assert((height as int - 1) * bpr + (width as int - 1) * bpp + bpp <= height * bpr)
                by (nonlinear_arith)
                requires
                    width >= 1,
                    height >= 1,
                    bpp >= 1,
                    bpr >= 0,
                    width * bpp <= bpr;
        }
        let idx = y * bpr + x * bpp;
        let v = buf.data[idx];
        let b: u8 = if v > 0 {
            255
        } else {
            0
        };
        out.push(b);
        i = i + 1;
    }
    proof {
        assert(out@ =~= normalized_mask_seq(
            buf.data@,
            width as int,
            height as int,
            bpr as int,
        ));
        assert forall|x: int, y: int| 0 <= x < width && 0 <= y < height implies out@[y * width + x]
            == extracted_at(buf.data@, width as int, bpr as int, x, y) by {
            let j = y * (width as int) + x;
            assert(y * (width as int) + x + 1 <= (width as int) * (height as int))
                by (nonlinear_arith)
                requires 0 <= x < width as int, 0 <= y < height as int;
            lemma_fundamental_div_mod_converse_div(j, width as int, y, x);
            lemma_fundamental_div_mod_converse_mod(j, width as int, y, x);
        }
    }
    Ok(out)
}

} // verus!
