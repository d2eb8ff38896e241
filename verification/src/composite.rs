//! Packing of a resampled mask into an RGBA raster.
//!
//! Every pixel carries the constant, non-informative white color; only the
//! alpha channel carries information, taken verbatim from the mask.

use vstd::prelude::*;
use vstd::arithmetic::div_mod::lemma_multiply_divide_lt;

verus! {

/// The RGBA raster of a mask: four bytes per mask element, the first three
/// always 255, the fourth the mask element itself.
pub open spec fn raster_seq(mask: Seq<u8>) -> Seq<u8> {
    Seq::new(
        mask.len() * 4,
        |i: int|
            if i % 4 == 3 {
                mask[i / 4]
            } else {
                255u8
            },
    )
}

/// Packs a dense mask of `width * height` elements into an RGBA byte array of
/// length `4 * width * height`: constant white RGB, mask-derived alpha.
///
/// A mask whose length does not match the dimensions is a programming-
/// invariant violation upstream, not an input this function accepts.
pub fn composite_alpha(mask: &Vec<u8>, width: u32, height: u32) -> (r: Vec<u8>)
    requires
        mask@.len() == width * height,
        4 * (width * height) <= usize::MAX,
    ensures
        r@.len() == 4 * (width * height),
        r@ == raster_seq(mask@),
        forall|i: int|
            0 <= i < mask@.len() ==> r@[4 * i] == 255 && r@[4 * i + 1] == 255 && r@[4 * i + 2]
                == 255 && r@[4 * i + 3] == mask@[i],
{
    let n = mask.len();
    let total = 4 * n;
    let mut out: Vec<u8> = Vec::new();
    let mut k: usize = 0;
    while k < total
        invariant
            n == mask@.len(),
            total == 4 * n,
            k <= total,
            out@.len() == k,
            forall|m: int| 0 <= m < k ==> out@[m] == raster_seq(mask@)[m],
        decreases total - k,
    {
        let j = k / 4;
        let c = k % 4;
        proof {
            lemma_multiply_divide_lt(k as int, 4, n as int);
        }
        let b: u8 = if c == 3 {
            mask[j]
        } else {
            255
        };
        out.push(b);
        k = k + 1;
    }
    proof {
        assert(out@ =~= raster_seq(mask@));
        assert forall|i: int| 0 <= i < mask@.len() implies out@[4 * i] == 255 && out@[4 * i + 1]
            == 255 && out@[4 * i + 2] == 255 && out@[4 * i + 3] == mask@[i] by {
            assert((4 * i) % 4 == 0 && (4 * i) / 4 == i && (4 * i + 1) % 4 == 1 && (4 * i + 1) / 4
                == i && (4 * i + 2) % 4 == 2 && (4 * i + 2) / 4 == i && (4 * i + 3) % 4 == 3 && (4
                * i + 3) / 4 == i) by (nonlinear_arith);
        }
    }
    out
}

} // verus!
