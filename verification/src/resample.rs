//! Rescaling of a dense mask to the source image's exact dimensions.
//!
//! The filter is a separable triangle (piecewise-linear) kernel: every output
//! sample is a weighted average of the up to four nearest source samples,
//! weighted by linear proximity in source space. Output positions map onto
//! source positions so that the first and last sample of each axis land
//! exactly on the first and last source sample (out-of-range references
//! clamp to the nearest edge sample), and every output value is rounded to
//! the nearest integer in [0, 255]. When the mask already has the target
//! dimensions, resampling is a pass-through.

use vstd::prelude::*;
use vstd::arithmetic::div_mod::{
    lemma_div_is_ordered, lemma_fundamental_div_mod_converse_div,
    lemma_fundamental_div_mod_converse_mod, lemma_multiply_divide_le, lemma_multiply_divide_lt,
};
use vstd::arithmetic::mul::lemma_mul_inequality;

verus! {

/// A row-major grid index stays within the grid.
proof fn lemma_grid_index(row: int, col: int, mw: int, mh: int)
    requires
        0 <= row < mh,
        0 <= col < mw,
    ensures
        0 <= row * mw + col < mw * mh,
{
    assert(0 <= row * mw + col && row * mw + col < mw * mh) by (nonlinear_arith)
        requires 0 <= row < mh, 0 <= col < mw;
}

/// The weight denominator of one axis: the number of source steps spread over
/// the target steps. A single-sample target axis has no steps; its
/// denominator is 1 so that the (zero) numerator still divides cleanly.
pub open spec fn axis_den(t: int) -> int {
    if t > 1 {
        t - 1
    } else {
        1
    }
}

/// The source index left of target position `o`: floor of `o * (m-1) / (t-1)`.
pub open spec fn coord_base(o: int, m: int, t: int) -> int {
    (o * (m - 1)) / axis_den(t)
}

/// The sub-sample remainder of target position `o` over `axis_den(t)`.
pub open spec fn coord_rem(o: int, m: int, t: int) -> int {
    (o * (m - 1)) % axis_den(t)
}

/// The rounded weighted average of the four samples around one output
/// position: remainders `rx`, `ry` weight the right and lower samples,
/// their complements weight the left and upper ones; the quotient is
/// rounded to the nearest integer (half away from zero).
pub open spec fn blend(
    s00: u8,
    s01: u8,
    s10: u8,
    s11: u8,
    rx: int,
    dx: int,
    ry: int,
    dy: int,
) -> int {
    let row0 = (dx - rx) * s00 + rx * s01;
    let row1 = (dx - rx) * s10 + rx * s11;
    let num = (dy - ry) * row0 + ry * row1;
    (2 * num + dx * dy) / (2 * (dx * dy))
}

/// The value of the resampled mask at output column `xo`, row `yo`.
pub open spec fn resampled_at(
    mask: Seq<u8>,
    mw: int,
    mh: int,
    tw: int,
    th: int,
    xo: int,
    yo: int,
) -> int {
    let dx = axis_den(tw);
    let dy = axis_den(th);
    let x0 = coord_base(xo, mw, tw);
    let y0 = coord_base(yo, mh, th);
    let rx = coord_rem(xo, mw, tw);
    let ry = coord_rem(yo, mh, th);
    let x1 = if x0 + 1 < mw {
        x0 + 1
    } else {
        mw - 1
    };
    let y1 = if y0 + 1 < mh {
        y0 + 1
    } else {
        mh - 1
    };
    blend(
        mask[y0 * mw + x0],
        mask[y0 * mw + x1],
        mask[y1 * mw + x0],
        mask[y1 * mw + x1],
        rx,
        dx,
        ry,
        dy,
    )
}

/// The whole resampled mask, row-major, as a sequence of bytes.
pub open spec fn resampled_mask_seq(mask: Seq<u8>, mw: int, mh: int, tw: int, th: int) -> Seq<u8> {
    Seq::new((tw * th) as nat, |i: int| resampled_at(mask, mw, mh, tw, th, i % tw, i / tw) as u8)
}

/// A blended value is always a byte: the weighted average of bytes, rounded,
/// stays within [0, 255].
pub proof fn lemma_blend_bounds(s00: u8, s01: u8, s10: u8, s11: u8, rx: int, dx: int, ry: int, dy: int)
    requires
        1 <= dx,
        1 <= dy,
        0 <= rx <= dx,
        0 <= ry <= dy,
    ensures
        0 <= blend(s00, s01, s10, s11, rx, dx, ry, dy) <= 255,
{
    let row0 = (dx - rx) * s00 + rx * s01;
    let row1 = (dx - rx) * s10 + rx * s11;
    let num = (dy - ry) * row0 + ry * row1;
    let den = dx * dy;
    assert(0 <= row0 <= 255 * dx && 0 <= row1 <= 255 * dx) by (nonlinear_arith)
        requires
            0 <= rx <= dx,
            0 <= s00 <= 255,
            0 <= s01 <= 255,
            0 <= s10 <= 255,
            0 <= s11 <= 255,
            row0 == (dx - rx) * s00 + rx * s01,
            row1 == (dx - rx) * s10 + rx * s11;
    assert(0 <= num <= 255 * den && 1 <= den) by (nonlinear_arith)
        requires
            1 <= dx,
            1 <= dy,
            0 <= ry <= dy,
            0 <= row0 <= 255 * dx,
            0 <= row1 <= 255 * dx,
            num == (dy - ry) * row0 + ry * row1,
            den == dx * dy;
    assert(0 <= (2 * num + den) / (2 * den));
    lemma_div_is_ordered(2 * num + den, 511 * den, 2 * den);
    assert(511 * den == 255 * (2 * den) + den) by (nonlinear_arith);
    lemma_fundamental_div_mod_converse_div(511 * den, 2 * den, 255, den);
}

/// With both remainders zero the blend collapses to the upper-left sample.
pub proof fn lemma_blend_exact(s00: u8, s01: u8, s10: u8, s11: u8, dx: int, dy: int)
    requires
        1 <= dx,
        1 <= dy,
    ensures
        blend(s00, s01, s10, s11, 0, dx, 0, dy) == s00,
{
    let den = dx * dy;
    assert((dy - 0) * ((dx - 0) * s00 + 0 * s01) + 0 * ((dx - 0) * s10 + 0 * s11) == den * s00)
        by (nonlinear_arith)
        requires den == dx * dy;
    assert(2 * (den * s00) + den == s00 * (2 * den) + den) by (nonlinear_arith);
    assert(1 <= den) by (nonlinear_arith)
        requires 1 <= dx, 1 <= dy, den == dx * dy;
    lemma_fundamental_div_mod_converse_div(2 * (den * s00) + den, 2 * den, s00 as int, den);
}

/// A blend of four equal samples is that sample, whatever the weights.
pub proof fn lemma_blend_const(v: u8, rx: int, dx: int, ry: int, dy: int)
    requires
        1 <= dx,
        1 <= dy,
        0 <= rx <= dx,
        0 <= ry <= dy,
    ensures
        blend(v, v, v, v, rx, dx, ry, dy) == v,
{
    let den = dx * dy;
    assert((dy - ry) * ((dx - rx) * v + rx * v) + ry * ((dx - rx) * v + rx * v) == den * v)
        by (nonlinear_arith)
        requires den == dx * dy;
    assert(2 * (den * v) + den == v * (2 * den) + den) by (nonlinear_arith);
    assert(1 <= den) by (nonlinear_arith)
        requires 1 <= dx, 1 <= dy, den == dx * dy;
    lemma_fundamental_div_mod_converse_div(2 * (den * v) + den, 2 * den, v as int, den);
}

/// Source coordinates stay within the source axis: the base index lies in
/// [0, m-1] and the remainder in [0, axis_den(t)).
pub proof fn lemma_coord_in_range(o: int, m: int, t: int)
    requires
        1 <= m,
        1 <= t,
        0 <= o < t,
    ensures
        0 <= coord_base(o, m, t) <= m - 1,
        0 <= coord_rem(o, m, t) < axis_den(t),
        1 <= axis_den(t),
{
    let den = axis_den(t);
    let num = o * (m - 1);
    assert(0 <= num) by (nonlinear_arith)
        requires 0 <= o, 1 <= m, num == o * (m - 1);
    if t > 1 {
        lemma_mul_inequality(o, t - 1, m - 1);
        assert((t - 1) * (m - 1) == den * (m - 1)) by (nonlinear_arith)
            requires den == t - 1;
        lemma_multiply_divide_le(num, den, m - 1);
    } else {
        assert(o == 0);
        assert(num == 0) by (nonlinear_arith)
            requires o == 0, num == o * (m - 1);
        assert(num / den == 0 && num % den == 0) by {
            lemma_fundamental_div_mod_converse_div(0, den, 0, 0);
            lemma_fundamental_div_mod_converse_mod(0, den, 0, 0);
        }
    }
}

/// Resampling a mask onto its own dimensions reproduces it exactly.
pub proof fn lemma_resample_identity(mask: Seq<u8>, mw: int, mh: int)
    requires
        1 <= mw,
        1 <= mh,
        mask.len() == mw * mh,
    ensures
        forall|xo: int, yo: int|
            0 <= xo < mw && 0 <= yo < mh ==> resampled_at(mask, mw, mh, mw, mh, xo, yo)
                == mask[yo * mw + xo],
{
    assert forall|xo: int, yo: int| 0 <= xo < mw && 0 <= yo < mh implies resampled_at(
        mask,
        mw,
        mh,
        mw,
        mh,
        xo,
        yo,
    ) == mask[yo * mw + xo] by {
        lemma_axis_fixpoint(xo, mw);
        lemma_axis_fixpoint(yo, mh);
        let dx = axis_den(mw);
        let dy = axis_den(mh);
        lemma_blend_exact(
            mask[yo * mw + xo],
            mask[yo * mw + (if xo + 1 < mw { xo + 1 } else { mw - 1 })],
            mask[(if yo + 1 < mh { yo + 1 } else { mh - 1 }) * mw + xo],
            mask[(if yo + 1 < mh { yo + 1 } else { mh - 1 }) * mw + (if xo + 1 < mw {
                xo + 1
            } else {
                mw - 1
            })],
            dx,
            dy,
        );
    }
}

/// On an axis mapped onto itself, every position is its own base with
/// remainder zero.
proof fn lemma_axis_fixpoint(o: int, m: int)
    requires
        1 <= m,
        0 <= o < m,
    ensures
        coord_base(o, m, m) == o,
        coord_rem(o, m, m) == 0,
{
    let den = axis_den(m);
    if m > 1 {
        assert(o * (m - 1) == o * den + 0) by (nonlinear_arith)
            requires den == m - 1;
        lemma_fundamental_div_mod_converse_div(o * (m - 1), den, o, 0);
        lemma_fundamental_div_mod_converse_mod(o * (m - 1), den, o, 0);
    } else {
        assert(o == 0);
        assert(o * (m - 1) == 0) by (nonlinear_arith)
            requires o == 0;
        lemma_fundamental_div_mod_converse_div(0, 1, 0, 0);
        lemma_fundamental_div_mod_converse_mod(0, 1, 0, 0);
    }
}

/// The last target position of an axis lands exactly on the last source
/// sample, provided the axis does not collapse several source samples onto a
/// single target sample (`t == 1` with `m > 1`).
proof fn lemma_axis_last(m: int, t: int)
    requires
        1 <= m,
        1 <= t,
        t > 1 || m == 1,
    ensures
        coord_base(t - 1, m, t) == m - 1,
        coord_rem(t - 1, m, t) == 0,
{
    let den = axis_den(t);
    if t > 1 {
        assert((t - 1) * (m - 1) == (m - 1) * den + 0) by (nonlinear_arith)
            requires den == t - 1;
        lemma_fundamental_div_mod_converse_div((t - 1) * (m - 1), den, m - 1, 0);
        lemma_fundamental_div_mod_converse_mod((t - 1) * (m - 1), den, m - 1, 0);
    } else {
        lemma_axis_fixpoint(0, 1);
    }
}

/// Corner-exactness: the four corner elements of the resampled mask equal the
/// four corner elements of the source mask, for any scale factor that does
/// not collapse a multi-sample axis onto a single sample.
pub proof fn lemma_resample_corners(mask: Seq<u8>, mw: int, mh: int, tw: int, th: int)
    requires
        1 <= mw,
        1 <= mh,
        1 <= tw,
        1 <= th,
        tw > 1 || mw == 1,
        th > 1 || mh == 1,
        mask.len() == mw * mh,
    ensures
        resampled_at(mask, mw, mh, tw, th, 0, 0) == mask[0],
        resampled_at(mask, mw, mh, tw, th, tw - 1, 0) == mask[mw - 1],
        resampled_at(mask, mw, mh, tw, th, 0, th - 1) == mask[(mh - 1) * mw],
        resampled_at(mask, mw, mh, tw, th, tw - 1, th - 1) == mask[(mh - 1) * mw + (mw - 1)],
{
    let dx = axis_den(tw);
    let dy = axis_den(th);
    lemma_axis_first(mw, tw);
    lemma_axis_first(mh, th);
    lemma_axis_last(mw, tw);
    lemma_axis_last(mh, th);
    let xl = if 0 + 1 < mw { 1 } else { mw - 1 };
    let yl = if 0 + 1 < mh { 1 } else { mh - 1 };
    lemma_blend_exact(mask[0], mask[xl], mask[yl * mw], mask[yl * mw + xl], dx, dy);
    lemma_blend_exact(mask[mw - 1], mask[mw - 1], mask[yl * mw + (mw - 1)], mask[yl * mw + (mw - 1)], dx, dy);
    lemma_blend_exact(mask[(mh - 1) * mw], mask[(mh - 1) * mw + xl], mask[(mh - 1) * mw], mask[(mh - 1) * mw + xl], dx, dy);
    lemma_blend_exact(mask[(mh - 1) * mw + (mw - 1)], mask[(mh - 1) * mw + (mw - 1)], mask[(mh - 1) * mw + (mw - 1)], mask[(mh - 1) * mw + (mw - 1)], dx, dy);
}

/// The first target position of an axis lands exactly on the first source
/// sample.
proof fn lemma_axis_first(m: int, t: int)
    requires
        1 <= m,
        1 <= t,
    ensures
        coord_base(0, m, t) == 0,
        coord_rem(0, m, t) == 0,
{
    assert(0 * (m - 1) == 0) by (nonlinear_arith);
    lemma_fundamental_div_mod_converse_div(0, axis_den(t), 0, 0);
    lemma_fundamental_div_mod_converse_mod(0, axis_den(t), 0, 0);
}

/// A constant mask resamples to the same constant at every output position.
pub proof fn lemma_resample_constant(mask: Seq<u8>, mw: int, mh: int, tw: int, th: int, v: u8)
    requires
        1 <= mw,
        1 <= mh,
        1 <= tw,
        1 <= th,
        mask.len() == mw * mh,
        forall|i: int| 0 <= i < mask.len() ==> mask[i] == v,
    ensures
        forall|xo: int, yo: int|
            0 <= xo < tw && 0 <= yo < th ==> resampled_at(mask, mw, mh, tw, th, xo, yo) == v,
{
    assert forall|xo: int, yo: int| 0 <= xo < tw && 0 <= yo < th implies resampled_at(
        mask,
        mw,
        mh,
        tw,
        th,
        xo,
        yo,
    ) == v by {
        lemma_coord_in_range(xo, mw, tw);
        lemma_coord_in_range(yo, mh, th);
        let x0 = coord_base(xo, mw, tw);
        let y0 = coord_base(yo, mh, th);
        let x1 = if x0 + 1 < mw { x0 + 1 } else { mw - 1 };
        let y1 = if y0 + 1 < mh { y0 + 1 } else { mh - 1 };
        lemma_grid_index(y0, x0, mw, mh);
        lemma_grid_index(y0, x1, mw, mh);
        lemma_grid_index(y1, x0, mw, mh);
        lemma_grid_index(y1, x1, mw, mh);
        assert(mask[y0 * mw + x0] == v && mask[y0 * mw + x1] == v && mask[y1 * mw + x0] == v
            && mask[y1 * mw + x1] == v);
        lemma_blend_const(v, coord_rem(xo, mw, tw), axis_den(tw), coord_rem(yo, mh, th), axis_den(th));
    }
}

/// One output sample, computed in exact integer arithmetic.
fn blend_sample(s00: u8, s01: u8, s10: u8, s11: u8, rx: u64, dx: u64, ry: u64, dy: u64) -> (v: u8)
    requires
        1 <= dx <= u32::MAX,
        1 <= dy <= u32::MAX,
        rx < dx,
        ry < dy,
    ensures
        v as int == blend(s00, s01, s10, s11, rx as int, dx as int, ry as int, dy as int),
{
    proof {
        lemma_blend_bounds(s00, s01, s10, s11, rx as int, dx as int, ry as int, dy as int);
        assert(1 <= dx * dy <= 0x1_0000_0000_0000_0000) by (nonlinear_arith)
            requires 1 <= dx, 1 <= dy, dx <= u32::MAX, dy <= u32::MAX;
        assert((dx - rx) * s00 + rx * s01 <= 255 * dx && (dx - rx) * s10 + rx * s11 <= 255 * dx)
            by (nonlinear_arith)
            requires rx <= dx, s00 <= 255, s01 <= 255, s10 <= 255, s11 <= 255;
        assert((dy - ry) * ((dx - rx) * s00 + rx * s01) + ry * ((dx - rx) * s10 + rx * s11)
            <= 255 * (dx * dy)) by (nonlinear_arith)
            requires
                1 <= dy,
                ry <= dy,
                0 <= (dx - rx) * s00 + rx * s01 <= 255 * dx,
                0 <= (dx - rx) * s10 + rx * s11 <= 255 * dx;
    }
    let row0: u128 = (dx - rx) as u128 * s00 as u128 + rx as u128 * s01 as u128;
    let row1: u128 = (dx - rx) as u128 * s10 as u128 + rx as u128 * s11 as u128;
    let num: u128 = (dy - ry) as u128 * row0 + ry as u128 * row1;
    let den: u128 = dx as u128 * dy as u128;
    let q: u128 = (2 * num + den) / (2 * den);
    q as u8
}

/// Rescales a dense `mask_w x mask_h` mask to exactly `target_w x target_h`.
/// Equal dimensions pass the mask through unchanged; otherwise every output
/// element is the triangle-filtered blend of its four nearest source samples.
pub fn resample_mask(
    mask: &Vec<u8>,
    mask_w: usize,
    mask_h: usize,
    target_w: usize,
    target_h: usize,
) -> (r: Vec<u8>)
    requires
        mask@.len() == mask_w * mask_h,
        1 <= mask_w <= u32::MAX,
        1 <= mask_h <= u32::MAX,
        1 <= target_w <= u32::MAX,
        1 <= target_h <= u32::MAX,
        target_w * target_h <= usize::MAX,
    ensures
        r@.len() == target_w * target_h,
        r@ == resampled_mask_seq(mask@, mask_w as int, mask_h as int, target_w as int, target_h as int),
        forall|xo: int, yo: int|
            0 <= xo < target_w && 0 <= yo < target_h ==> r@[yo * target_w + xo] as int
                == resampled_at(mask@, mask_w as int, mask_h as int, target_w as int, target_h as int, xo, yo),
        mask_w == target_w && mask_h == target_h ==> r@ == mask@,
{
    let ghost mwi = mask_w as int;
    let ghost mhi = mask_h as int;
    let ghost twi = target_w as int;
    let ghost thi = target_h as int;
    if mask_w == target_w && mask_h == target_h {
        let mut out: Vec<u8> = Vec::new();
        let n = mask.len();
        let mut i: usize = 0;
        while i < n
            invariant
                n == mask@.len(),
                i <= n,
                out@ == mask@.take(i as int),
            decreases n - i,
        {
            let v = mask[i];
            out.push(v);
            proof {
                assert(out@ =~= mask@.take(i + 1));
            }
            i = i + 1;
        }
        proof {
            assert(out@ =~= mask@);
            lemma_resample_identity(mask@, mwi, mhi);
            assert forall|j: int| 0 <= j < twi * thi implies mask@[j] as int == resampled_at(
                mask@,
                mwi,
                mhi,
                twi,
                thi,
                j % twi,
                j / twi,
            ) by {
                lemma_multiply_divide_lt(j, twi, thi);
                assert((j / twi) * twi + (j % twi) == j) by {
                    vstd::arithmetic::div_mod::lemma_fundamental_div_mod(j, twi);
                    assert(twi * (j / twi) == (j / twi) * twi) by (nonlinear_arith);
                }
            }
            assert(out@ =~= resampled_mask_seq(mask@, mwi, mhi, twi, thi));
        }
        return out;
    }
    let dx: u64 = if target_w > 1 {
        (target_w - 1) as u64
    } else {
        1
    };
    let dy: u64 = if target_h > 1 {
        (target_h - 1) as u64
    } else {
        1
    };
    let total = target_w * target_h;
    let mlen = mask.len();
    let mut out: Vec<u8> = Vec::new();
    let mut i: usize = 0;
    while i < total
        invariant
            mask@.len() == mask_w * mask_h,
            mlen == mask@.len(),
            1 <= mask_w <= u32::MAX,
            1 <= mask_h <= u32::MAX,
            1 <= target_w <= u32::MAX,
            1 <= target_h <= u32::MAX,
            mwi == mask_w as int && mhi == mask_h as int && twi == target_w as int && thi
                == target_h as int,
            dx == axis_den(twi) && dy == axis_den(thi),
            total == target_w * target_h,
            i <= total,
            out@.len() == i,
            forall|j: int|
                0 <= j < i ==> out@[j] as int == resampled_at(mask@, mwi, mhi, twi, thi, j % twi, j / twi),
        decreases total - i,
    {
        let xo = i % target_w;
        let yo = i / target_w;
        proof {
            lemma_multiply_divide_lt(i as int, twi, thi);
            lemma_coord_in_range(xo as int, mwi, twi);
            lemma_coord_in_range(yo as int, mhi, thi);
            assert((xo as int) * (mwi - 1) <= u64::MAX && (yo as int) * (mhi - 1) <= u64::MAX)
                by (nonlinear_arith)
                requires
                    0 <= xo as int <= 0xffff_ffff,
                    0 <= yo as int <= 0xffff_ffff,
                    1 <= mwi <= 0x1_0000_0000,
                    1 <= mhi <= 0x1_0000_0000,
                    u64::MAX == 0xffff_ffff_ffff_ffff;
        }
        let numx: u64 = (xo as u64) * ((mask_w - 1) as u64);
        let numy: u64 = (yo as u64) * ((mask_h - 1) as u64);
        let x0u: u64 = numx / dx;
        let rx: u64 = numx % dx;
        let y0u: u64 = numy / dy;
        let ry: u64 = numy % dy;
        let x0 = x0u as usize;
        let y0 = y0u as usize;
        let x1 = if x0 + 1 < mask_w {
            x0 + 1
        } else {
            mask_w - 1
        };
        let y1 = if y0 + 1 < mask_h {
            y0 + 1
        } else {
            mask_h - 1
        };
        proof {
            assert(x0 as int == coord_base(xo as int, mwi, twi));
            assert(y0 as int == coord_base(yo as int, mhi, thi));
            assert(mwi * mhi == mlen);
            lemma_grid_index(y0 as int, x0 as int, mwi, mhi);
            lemma_grid_index(y0 as int, x1 as int, mwi, mhi);
            lemma_grid_index(y1 as int, x0 as int, mwi, mhi);
            lemma_grid_index(y1 as int, x1 as int, mwi, mhi);
        }
        let s00 = mask[y0 * mask_w + x0];
        let s01 = mask[y0 * mask_w + x1];
        let s10 = mask[y1 * mask_w + x0];
        let s11 = mask[y1 * mask_w + x1];
        let v = blend_sample(s00, s01, s10, s11, rx, dx, ry, dy);
        out.push(v);
        i = i + 1;
    }
    proof {
        assert forall|j: int| 0 <= j < out@.len() implies out@[j] == resampled_mask_seq(
            mask@,
            mwi,
            mhi,
            twi,
            thi,
        )[j] by {
            lemma_multiply_divide_lt(j, twi, thi);
            lemma_coord_in_range(j % twi, mwi, twi);
            lemma_coord_in_range(j / twi, mhi, thi);
            lemma_blend_bounds_at(mask@, mwi, mhi, twi, thi, j % twi, j / twi);
        }
        assert(out@ =~= resampled_mask_seq(mask@, mwi, mhi, twi, thi));
        assert forall|xo: int, yo: int| 0 <= xo < twi && 0 <= yo < thi implies out@[yo * twi + xo]
            as int == resampled_at(mask@, mwi, mhi, twi, thi, xo, yo) by {
            assert(yo * twi + xo + 1 <= twi * thi) by (nonlinear_arith)
                requires 0 <= xo < twi, 0 <= yo < thi;
            lemma_fundamental_div_mod_converse_div(yo * twi + xo, twi, yo, xo);
            lemma_fundamental_div_mod_converse_mod(yo * twi + xo, twi, yo, xo);
        }
    }
    out
}

/// The resampled value at any in-range position is a byte.
proof fn lemma_blend_bounds_at(mask: Seq<u8>, mw: int, mh: int, tw: int, th: int, xo: int, yo: int)
    requires
        1 <= mw,
        1 <= mh,
        1 <= tw,
        1 <= th,
        0 <= xo < tw,
        0 <= yo < th,
    ensures
        0 <= resampled_at(mask, mw, mh, tw, th, xo, yo) <= 255,
{
    lemma_coord_in_range(xo, mw, tw);
    lemma_coord_in_range(yo, mh, th);
    let x0 = coord_base(xo, mw, tw);
    let y0 = coord_base(yo, mh, th);
    let x1 = if x0 + 1 < mw { x0 + 1 } else { mw - 1 };
    let y1 = if y0 + 1 < mh { y0 + 1 } else { mh - 1 };
    lemma_blend_bounds(
        mask[y0 * mw + x0],
        mask[y0 * mw + x1],
        mask[y1 * mw + x0],
        mask[y1 * mw + x1],
        coord_rem(xo, mw, tw),
        axis_den(tw),
        coord_rem(yo, mh, th),
        axis_den(th),
    );
}

} // verus!
