//! Encoding boundaries of the pipeline: base64 transport of byte buffers,
//! the dimension probe of an encoded image, and lossless raster encoders.
//!
//! The encoders and the probe come from outside libraries; each stands here
//! behind a small trusted wrapper whose contract names what the call returns,
//! so that everything around the calls is verified.

use vstd::prelude::*;
use vstd::string::StringExecFns;
use crate::text::{dec_seq, dec_string};

verus! {

/// What base64's standard-alphabet, padded engine returns for these bytes.
pub uninterp spec fn base64_std_encode_of(b: Seq<u8>) -> Seq<char>;

/// Relies on `base64::Engine::encode` with the `STANDARD` engine: the base64
/// encoding of the bytes, a function of the bytes alone.
#[verifier::external_body]
pub(crate) fn base64_encode(bytes: &Vec<u8>) -> (r: String)
    ensures
        r@ == base64_std_encode_of(bytes@),
{
    base64::Engine::encode(&base64::engine::general_purpose::STANDARD, bytes.as_slice())
}

/// What decoding with base64's standard-alphabet, padded engine yields: the
/// bytes, or nothing where the input is not valid base64 of that alphabet.
pub uninterp spec fn base64_std_decode_of(s: Seq<char>) -> Option<Seq<u8>>;

/// Relies on `base64::Engine::decode` with the `STANDARD` engine: succeeds
/// exactly on valid padded standard-alphabet base64, a function of the
/// characters alone.
#[verifier::external_body]
pub(crate) fn base64_decode(s: &str) -> (r: Option<Vec<u8>>)
    ensures
        r is Some <==> base64_std_decode_of(s@) is Some,
        r matches Some(v) ==> Some(v@) == base64_std_decode_of(s@),
{
    base64::Engine::decode(&base64::engine::general_purpose::STANDARD, s).ok()
}

/// What the pixel dimensions of an encoded image are, or nothing where the
/// bytes are no supported image container.
pub uninterp spec fn image_dims_of(bytes: Seq<u8>) -> Option<(u32, u32)>;

/// Relies on `image::ImageReader`: guesses the container format and reads the
/// pixel dimensions out of the header, a function of the bytes alone.
#[verifier::external_body]
pub(crate) fn image_dimensions(bytes: &Vec<u8>) -> (r: Option<(u32, u32)>)
    ensures
        r == image_dims_of(bytes@),
{
    let reader = image::ImageReader::new(std::io::Cursor::new(bytes.as_slice()));
    match reader.with_guessed_format() {
        Ok(rd) => rd.into_dimensions().ok(),
        Err(_) => None,
    }
}

/// The PNG serialization of an RGBA raster, or nothing where the encoder
/// refuses it (a zero-area raster).
pub uninterp spec fn png_encoding_of(rgba: Seq<u8>, width: u32, height: u32) -> Option<Seq<u8>>;

/// Relies on `image::ImageBuffer::write_to` with `ImageFormat::Png`: the PNG
/// bytes of the raster, a function of raster and dimensions alone.
#[verifier::external_body]
pub(crate) fn png_encode(rgba: &Vec<u8>, width: u32, height: u32) -> (r: Option<Vec<u8>>)
    requires
        rgba@.len() == 4 * ((width as int) * (height as int)),
    ensures
        r is Some <==> png_encoding_of(rgba@, width, height) is Some,
        r matches Some(v) ==> Some(v@) == png_encoding_of(rgba@, width, height),
{
    let img: image::ImageBuffer<image::Rgba<u8>, &[u8]> =
        match image::ImageBuffer::from_raw(width, height, rgba.as_slice()) {
            Some(b) => b,
            None => {
                return None;
            },
        };
    let mut out: Vec<u8> = Vec::new();
    let mut cursor = std::io::Cursor::new(&mut out);
    match img.write_to(&mut cursor, image::ImageFormat::Png) {
        Ok(()) => Some(out),
        Err(_) => None,
    }
}

/// The lossless WebP serialization of an RGBA raster, or nothing where the
/// encoder refuses it.
pub uninterp spec fn webp_encoding_of(rgba: Seq<u8>, width: u32, height: u32) -> Option<Seq<u8>>;

/// Relies on `image::ImageBuffer::write_to` with `ImageFormat::WebP`: the
/// (lossless) WebP bytes of the raster, a function of raster and dimensions
/// alone.
#[verifier::external_body]
pub(crate) fn webp_encode(rgba: &Vec<u8>, width: u32, height: u32) -> (r: Option<Vec<u8>>)
    requires
        rgba@.len() == 4 * ((width as int) * (height as int)),
    ensures
        r is Some <==> webp_encoding_of(rgba@, width, height) is Some,
        r matches Some(v) ==> Some(v@) == webp_encoding_of(rgba@, width, height),
{
    let img: image::ImageBuffer<image::Rgba<u8>, &[u8]> =
        match image::ImageBuffer::from_raw(width, height, rgba.as_slice()) {
            Some(b) => b,
            None => {
                return None;
            },
        };
    let mut out: Vec<u8> = Vec::new();
    let mut cursor = std::io::Cursor::new(&mut out);
    match img.write_to(&mut cursor, image::ImageFormat::WebP) {
        Ok(()) => Some(out),
        Err(_) => None,
    }
}

/// A raw RGBA raster to encode as PNG, handed over as base64.
#[derive(Debug)]
pub struct EncodePngArgs {
    pub rgba_base64: String,
    pub width: u32,
    pub height: u32,
}

/// A raw RGBA raster to encode as WebP, handed over as base64. The quality
/// knob is accepted for interface parity and ignored: output is lossless.
#[derive(Debug)]
pub struct EncodeWebpArgs {
    pub rgba_base64: String,
    pub width: u32,
    pub height: u32,
    pub quality: Option<u8>,
}

/// Whether an executable string result matches a specification-level one,
/// view for view.
pub open spec fn str_result_matches(r: Result<String, String>, s: Result<Seq<char>, Seq<char>>) -> bool {
    match (r, s) {
        (Result::Ok(a), Result::Ok(b)) => a@ == b,
        (Result::Err(a), Result::Err(b)) => a@ == b,
        _ => false,
    }
}

/// The mismatch message for a raster of the wrong byte length.
pub open spec fn length_error_seq(expected: int, got: int) -> Seq<char> {
    "Invalid RGBA data length: expected "@ + dec_seq(expected) + ", got "@ + dec_seq(got)
}

/// What encoding a base64 RGBA raster of the given dimensions returns:
/// the base64 of the encoded bytes, or the error that names the first stage
/// that refused the input.
pub open spec fn encode_png_result(rgba_base64: Seq<char>, width: u32, height: u32) -> Result<
    Seq<char>,
    Seq<char>,
> {
    match base64_std_decode_of(rgba_base64) {
        Option::None => Result::Err("Failed to decode base64"@),
        Option::Some(bytes) => {
            let expected = 4 * ((width as int) * (height as int));
            if bytes.len() != expected {
                Result::Err(length_error_seq(expected, bytes.len() as int))
            } else {
                match png_encoding_of(bytes, width, height) {
                    Option::None => Result::Err("Failed to encode PNG"@),
                    Option::Some(png) => Result::Ok(base64_std_encode_of(png)),
                }
            }
        },
    }
}

/// The same for WebP output.
pub open spec fn encode_webp_result(rgba_base64: Seq<char>, width: u32, height: u32) -> Result<
    Seq<char>,
    Seq<char>,
> {
    match base64_std_decode_of(rgba_base64) {
        Option::None => Result::Err("Failed to decode base64"@),
        Option::Some(bytes) => {
            let expected = 4 * ((width as int) * (height as int));
            if bytes.len() != expected {
                Result::Err(length_error_seq(expected, bytes.len() as int))
            } else {
                match webp_encoding_of(bytes, width, height) {
                    Option::None => Result::Err("Failed to encode WebP"@),
                    Option::Some(webp) => Result::Ok(base64_std_encode_of(webp)),
                }
            }
        },
    }
}

/// Builds the length mismatch message.
fn length_error(expected: u128, got: u128) -> (r: String)
    ensures
        r@ == length_error_seq(expected as int, got as int),
{
    let msg = "Invalid RGBA data length: expected ".to_owned();
    let e = dec_string(expected);
    let msg = msg.concat(e.as_str());
    let msg = msg.concat(", got ");
    let g = dec_string(got);
    let msg = msg.concat(g.as_str());
    msg
}

/// Encodes raw RGBA pixels, handed over as base64, to a base64 PNG.
/// Rejects base64 that does not decode and rasters whose byte length is not
/// exactly `4 * width * height`.
pub fn encode_png(args: EncodePngArgs) -> (r: Result<String, String>)
    ensures
        str_result_matches(r, encode_png_result(args.rgba_base64@, args.width, args.height)),
{
    let bytes = match base64_decode(args.rgba_base64.as_str()) {
        Option::Some(b) => b,
        Option::None => {
            return Err("Failed to decode base64".to_owned());
        },
    };
    proof {
        assert(4 * ((args.width as u128) * (args.height as u128)) < u128::MAX) by (nonlinear_arith)
            requires args.width <= u32::MAX, args.height <= u32::MAX;
    }
    let expected: u128 = 4 * ((args.width as u128) * (args.height as u128));
    if bytes.len() as u128 != expected {
        return Err(length_error(expected, bytes.len() as u128));
    }
    match png_encode(&bytes, args.width, args.height) {
        Option::Some(png) => Ok(base64_encode(&png)),
        Option::None => Err("Failed to encode PNG".to_owned()),
    }
}

/// Encodes raw RGBA pixels, handed over as base64, to a base64 lossless WebP.
pub fn encode_webp(args: EncodeWebpArgs) -> (r: Result<String, String>)
    ensures
        str_result_matches(r, encode_webp_result(args.rgba_base64@, args.width, args.height)),
{
    let bytes = match base64_decode(args.rgba_base64.as_str()) {
        Option::Some(b) => b,
        Option::None => {
            return Err("Failed to decode base64".to_owned());
        },
    };
    proof {
        assert(4 * ((args.width as u128) * (args.height as u128)) < u128::MAX) by (nonlinear_arith)
            requires args.width <= u32::MAX, args.height <= u32::MAX;
    }
    let expected: u128 = 4 * ((args.width as u128) * (args.height as u128));
    if bytes.len() as u128 != expected {
        return Err(length_error(expected, bytes.len() as u128));
    }
    match webp_encode(&bytes, args.width, args.height) {
        Option::Some(webp) => Ok(base64_encode(&webp)),
        Option::None => Err("Failed to encode WebP".to_owned()),
    }
}

} // verus!
