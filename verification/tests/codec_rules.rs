use base64::Engine;
use galileo_core::codec::{encode_png, encode_webp, EncodePngArgs, EncodeWebpArgs};

fn b64(bytes: &[u8]) -> String {
    base64::engine::general_purpose::STANDARD.encode(bytes)
}

fn unb64(s: &str) -> Vec<u8> {
    base64::engine::general_purpose::STANDARD.decode(s).unwrap()
}

#[test]
fn png_encoding_round_trips() {
    let rgba = vec![10u8, 20, 30, 255, 40, 50, 60, 128];
    let encoded = encode_png(EncodePngArgs {
        rgba_base64: b64(&rgba),
        width: 2,
        height: 1,
    })
    .unwrap();
    let img = image::load_from_memory(&unb64(&encoded)).unwrap().to_rgba8();
    assert_eq!(img.dimensions(), (2, 1));
    assert_eq!(img.into_raw(), rgba);
}

#[test]
fn png_encoding_checks_raster_length() {
    let err = encode_png(EncodePngArgs {
        rgba_base64: b64(&[1u8, 2, 3, 4]),
        width: 2,
        height: 2,
    })
    .unwrap_err();
    assert_eq!(err, "Invalid RGBA data length: expected 16, got 4");
}

#[test]
fn png_encoding_checks_base64() {
    let err = encode_png(EncodePngArgs {
        rgba_base64: "!!".to_string(),
        width: 1,
        height: 1,
    })
    .unwrap_err();
    assert_eq!(err, "Failed to decode base64");
}

#[test]
fn webp_encoding_round_trips() {
    let rgba = vec![200u8, 100, 50, 255, 1, 2, 3, 255];
    let encoded = encode_webp(EncodeWebpArgs {
        rgba_base64: b64(&rgba),
        width: 1,
        height: 2,
        quality: None,
    })
    .unwrap();
    let img = image::load_from_memory(&unb64(&encoded)).unwrap().to_rgba8();
    assert_eq!(img.dimensions(), (1, 2));
    assert_eq!(img.into_raw(), rgba);
}

#[test]
fn webp_encoding_checks_raster_length() {
    let err = encode_webp(EncodeWebpArgs {
        rgba_base64: b64(&[0u8; 8]),
        width: 3,
        height: 1,
        quality: Some(80),
    })
    .unwrap_err();
    assert_eq!(err, "Invalid RGBA data length: expected 12, got 8");
}
