//! The background-removal operation: probe the source image's dimensions,
//! take the segmentation capability's raw mask, normalize it, rescale it to
//! the source dimensions, pack it into a white RGBA raster whose alpha is the
//! mask, and encode the raster as PNG.
//!
//! The stages run strictly in that order and fail fast; a failure of any
//! stage is terminal for the call and no partial result is returned. The
//! segmentation call itself is an outside capability: its outcome is handed
//! in, and everything from there on is computed here.

use vstd::prelude::*;
use crate::codec::{
    base64_decode, base64_encode, base64_std_decode_of, base64_std_encode_of, image_dimensions,
    image_dims_of, png_encode, png_encoding_of,
};
use crate::composite::{composite_alpha, raster_seq};
use crate::mask::{extract_mask, layout_valid, normalized_mask_seq, MaskError, RawMaskBuffer};
use crate::resample::{resample_mask, resampled_mask_seq};

verus! {

/// The request of the background-removal operation: an encoded source image,
/// as base64.
#[derive(Debug)]
pub struct RemoveBackgroundArgs {
    pub image_base64: String,
}

/// The response: the PNG-encoded alpha raster as base64, the source image's
/// pixel dimensions, and the segmentation algorithm revision, passed through
/// uninterpreted.
#[derive(Debug)]
pub struct RemoveBackgroundResult {
    pub mask_png_base64: String,
    pub width: u32,
    pub height: u32,
    pub revision: Option<i32>,
}

/// What a segmentation capability reported for one image: the raw mask of
/// the highest-confidence instance together with the algorithm revision, no
/// instance at all, or a platform failure with its description.
pub enum SegmentationOutcome {
    Detected(RawMaskBuffer, Option<i32>),
    NoSubject,
    Unavailable(String),
}

impl SegmentationOutcome {
    /// A detected mask must hand over a well-formed buffer.
    pub open spec fn wf(&self) -> bool {
        match self {
            SegmentationOutcome::Detected(buf, _) => buf.wf(),
            _ => true,
        }
    }
}

/// Whether two pipeline errors are the same failure, descriptions compared
/// by their characters.
pub open spec fn mask_error_matches(a: MaskError, b: MaskError) -> bool {
    match (a, b) {
        (MaskError::DecodeError, MaskError::DecodeError) => true,
        (MaskError::NoSubjectDetected, MaskError::NoSubjectDetected) => true,
        (MaskError::ServiceUnavailable(x), MaskError::ServiceUnavailable(y)) => x@ == y@,
        (MaskError::InvalidBufferLayout, MaskError::InvalidBufferLayout) => true,
        (MaskError::EncodeError, MaskError::EncodeError) => true,
        _ => false,
    }
}

/// What the whole operation returns for given source bytes and a given
/// segmentation outcome: the base64 PNG with the output dimensions and the
/// passed-through revision, or the first stage's error.
pub open spec fn pipeline_spec(bytes: Seq<u8>, seg: SegmentationOutcome) -> Result<
    (Seq<char>, u32, u32, Option<i32>),
    MaskError,
> {
    match image_dims_of(bytes) {
        Option::None => Result::Err(MaskError::DecodeError),
        Option::Some((w, h)) => {
            if w == 0 || h == 0 || 4 * ((w as int) * (h as int)) > usize::MAX {
                Result::Err(MaskError::DecodeError)
            } else {
                match seg {
                    SegmentationOutcome::NoSubject => Result::Err(MaskError::NoSubjectDetected),
                    SegmentationOutcome::Unavailable(d) => Result::Err(
                        MaskError::ServiceUnavailable(d),
                    ),
                    SegmentationOutcome::Detected(buf, rev) => {
                        if !layout_valid(buf.width as int, buf.bytes_per_row as int) || buf.height
                            == 0 {
                            Result::Err(MaskError::InvalidBufferLayout)
                        } else {
                            let nm = normalized_mask_seq(
                                buf.data@,
                                buf.width as int,
                                buf.height as int,
                                buf.bytes_per_row as int,
                            );
                            let rm = resampled_mask_seq(
                                nm,
                                buf.width as int,
                                buf.height as int,
                                w as int,
                                h as int,
                            );
                            match png_encoding_of(raster_seq(rm), w, h) {
                                Option::None => Result::Err(MaskError::EncodeError),
                                Option::Some(png) => Result::Ok(
                                    (base64_std_encode_of(png), w, h, rev),
                                ),
                            }
                        }
                    },
                }
            }
        },
    }
}

/// Whether an executable result of the operation is the one the
/// specification assigns to these inputs.
pub open spec fn pipeline_post(
    bytes: Seq<u8>,
    seg: SegmentationOutcome,
    r: Result<RemoveBackgroundResult, MaskError>,
) -> bool {
    match (r, pipeline_spec(bytes, seg)) {
        (Result::Ok(res), Result::Ok((png64, w, h, rev))) => {
            &&& res.mask_png_base64@ == png64
            &&& res.width == w
            &&& res.height == h
            &&& res.revision == rev
        },
        (Result::Err(e), Result::Err(se)) => mask_error_matches(e, se),
        _ => false,
    }
}

/// Whether two results of the operation are byte-for-byte the same outcome:
/// equal encoded output, dimensions and revision on success, the same
/// failure otherwise.
pub open spec fn results_agree(
    r1: Result<RemoveBackgroundResult, MaskError>,
    r2: Result<RemoveBackgroundResult, MaskError>,
) -> bool {
    match (r1, r2) {
        (Result::Ok(a), Result::Ok(b)) => {
            &&& a.mask_png_base64@ == b.mask_png_base64@
            &&& a.width == b.width
            &&& a.height == b.height
            &&& a.revision == b.revision
        },
        (Result::Err(a), Result::Err(b)) => mask_error_matches(a, b),
        _ => false,
    }
}

/// The pipeline is deterministic: two runs on the same source bytes and the
/// same segmentation outcome agree byte for byte.
pub proof fn lemma_pipeline_deterministic(
    bytes: Seq<u8>,
    seg: SegmentationOutcome,
    r1: Result<RemoveBackgroundResult, MaskError>,
    r2: Result<RemoveBackgroundResult, MaskError>,
)
    requires
        pipeline_post(bytes, seg, r1),
        pipeline_post(bytes, seg, r2),
    ensures
        results_agree(r1, r2),
{
}

/// Sorts a probed dimension report into the pipeline's terms: decoding must
/// have succeeded, both dimensions must be positive, and the RGBA raster the
/// dimensions call for must be addressable.
pub fn classify_probed_dims(dims: Option<(u32, u32)>) -> (r: Result<(u32, u32), MaskError>)
    ensures
        r is Ok <==> (dims matches Some((w, h)) && w > 0 && h > 0 && 4 * ((w as int) * (h as int))
            <= usize::MAX),
        r matches Ok(d) ==> dims == Some(d),
        r matches Err(e) ==> e is DecodeError,
{
    match dims {
        Option::Some((w, h)) => {
            if w == 0 || h == 0 {
                return Err(MaskError::DecodeError);
            }
            proof {
                assert(4 * ((w as u128) * (h as u128)) < u128::MAX) by (nonlinear_arith)
                    requires w <= u32::MAX, h <= u32::MAX;
            }
            let need: u128 = 4 * ((w as u128) * (h as u128));
            if need > usize::MAX as u128 {
                return Err(MaskError::DecodeError);
            }
            Ok((w, h))
        },
        Option::None => Err(MaskError::DecodeError),
    }
}

/// Probes the pixel dimensions of an encoded image, independently of
/// segmentation. Fails with `DecodeError` on an invalid container, a
/// zero-area image, or dimensions too large to composite.
pub fn probe_dimensions(bytes: &Vec<u8>) -> (r: Result<(u32, u32), MaskError>)
    ensures
        r is Ok <==> (image_dims_of(bytes@) matches Some((w, h)) && w > 0 && h > 0 && 4 * ((
        w as int) * (h as int)) <= usize::MAX),
        r matches Ok(d) ==> image_dims_of(bytes@) == Some(d),
        r matches Err(e) ==> e is DecodeError,
{
    classify_probed_dims(image_dimensions(bytes))
}

/// Decodes the base64 transport of a source image. Fails with `DecodeError`
/// where the text is not valid base64.
pub fn decode_image_base64(image_base64: &str) -> (r: Result<Vec<u8>, MaskError>)
    ensures
        r is Ok <==> base64_std_decode_of(image_base64@) is Some,
        r matches Ok(v) ==> Some(v@) == base64_std_decode_of(image_base64@),
        r matches Err(e) ==> e is DecodeError,
{
    match base64_decode(image_base64) {
        Option::Some(v) => Ok(v),
        Option::None => Err(MaskError::DecodeError),
    }
}

/// Runs the whole operation on decoded source bytes and a segmentation
/// outcome: probe, normalize, resample, composite, encode. Returns the
/// base64 PNG with the source dimensions and the passed-through revision, or
/// the first failing stage's error, exactly as `pipeline_spec` lays it down.
pub fn remove_background_from_bytes(bytes: &Vec<u8>, seg: SegmentationOutcome) -> (r: Result<
    RemoveBackgroundResult,
    MaskError,
>)
    requires
        seg.wf(),
    ensures
        pipeline_post(bytes@, seg, r),
{
    let (w, h) = match probe_dimensions(bytes) {
        Ok(d) => d,
        Err(e) => {
            return Err(e);
        },
    };
    let (buf, revision) = match seg {
        SegmentationOutcome::NoSubject => {
            return Err(MaskError::NoSubjectDetected);
        },
        SegmentationOutcome::Unavailable(d) => {
            return Err(MaskError::ServiceUnavailable(d));
        },
        SegmentationOutcome::Detected(buf, rev) => (buf, rev),
    };
    let mask = match extract_mask(&buf) {
        Ok(m) => m,
        Err(e) => {
            return Err(e);
        },
    };
    if buf.height == 0 {
        return Err(MaskError::InvalidBufferLayout);
    }
    proof {
        assert((w as int) * (h as int) <= 4 * ((w as int) * (h as int))) by (nonlinear_arith)
            requires w >= 1, h >= 1;
    }
    let resampled = resample_mask(&mask, buf.width, buf.height, w as usize, h as usize);
    let raster = composite_alpha(&resampled, w, h);
    let png = match png_encode(&raster, w, h) {
        Option::Some(p) => p,
        Option::None => {
            return Err(MaskError::EncodeError);
        },
    };
    Ok(RemoveBackgroundResult { mask_png_base64: base64_encode(&png), width: w, height: h, revision })
}

} // verus!
