use base64::Engine;
use galileo_core::composite::composite_alpha;
use galileo_core::mask::{extract_mask, MaskError, RawMaskBuffer};
use galileo_core::pipeline::{
    decode_image_base64, probe_dimensions, remove_background_from_bytes, SegmentationOutcome,
};
use galileo_core::resample::resample_mask;

fn png_of_rgba(width: u32, height: u32, rgba: Vec<u8>) -> Vec<u8> {
    let img: image::ImageBuffer<image::Rgba<u8>, Vec<u8>> =
        image::ImageBuffer::from_raw(width, height, rgba).unwrap();
    let mut out: Vec<u8> = Vec::new();
    let mut cursor = std::io::Cursor::new(&mut out);
    img.write_to(&mut cursor, image::ImageFormat::Png).unwrap();
    out
}

fn decode_result_png(mask_png_base64: &str) -> image::RgbaImage {
    let png = base64::engine::general_purpose::STANDARD
        .decode(mask_png_base64)
        .unwrap();
    image::load_from_memory(&png).unwrap().to_rgba8()
}

#[test]
fn scenario_opaque_mask_scales_to_source() {
    let source = png_of_rgba(100, 100, vec![9u8; 100 * 100 * 4]);
    let buf = RawMaskBuffer {
        data: vec![200u8; 50 * 50],
        width: 50,
        height: 50,
        bytes_per_row: 50,
    };
    let result =
        remove_background_from_bytes(&source, SegmentationOutcome::Detected(buf, Some(2))).unwrap();
    assert_eq!(result.width, 100);
    assert_eq!(result.height, 100);
    assert_eq!(result.revision, Some(2));
    let img = decode_result_png(&result.mask_png_base64);
    assert_eq!(img.dimensions(), (100, 100));
    let raw = img.into_raw();
    assert_eq!(raw.len(), 40000);
    assert!(raw.iter().all(|&b| b == 255));
}

#[test]
fn scenario_zero_mask_is_fully_transparent() {
    let source = png_of_rgba(100, 100, vec![7u8; 100 * 100 * 4]);
    let buf = RawMaskBuffer {
        data: vec![0u8; 50 * 50],
        width: 50,
        height: 50,
        bytes_per_row: 50,
    };
    let result =
        remove_background_from_bytes(&source, SegmentationOutcome::Detected(buf, None)).unwrap();
    let img = decode_result_png(&result.mask_png_base64);
    let raw = img.into_raw();
    for px in raw.chunks(4) {
        assert_eq!(px[0], 255);
        assert_eq!(px[1], 255);
        assert_eq!(px[2], 255);
        assert_eq!(px[3], 0);
    }
}

#[test]
fn scenario_no_subject_fails_cleanly() {
    let source = png_of_rgba(10, 10, vec![1u8; 10 * 10 * 4]);
    let result = remove_background_from_bytes(&source, SegmentationOutcome::NoSubject);
    assert!(matches!(result, Err(MaskError::NoSubjectDetected)));
}

#[test]
fn scenario_degenerate_stride_is_rejected_before_sampling() {
    let buf = RawMaskBuffer {
        data: Vec::new(),
        width: 10,
        height: 5,
        bytes_per_row: 0,
    };
    assert!(matches!(
        extract_mask(&buf),
        Err(MaskError::InvalidBufferLayout)
    ));
    let source = png_of_rgba(10, 10, vec![1u8; 10 * 10 * 4]);
    let buf = RawMaskBuffer {
        data: Vec::new(),
        width: 10,
        height: 5,
        bytes_per_row: 0,
    };
    let result = remove_background_from_bytes(&source, SegmentationOutcome::Detected(buf, None));
    assert!(matches!(result, Err(MaskError::InvalidBufferLayout)));
}

#[test]
fn pipeline_is_deterministic_on_identical_inputs() {
    let source = png_of_rgba(8, 6, vec![3u8; 8 * 6 * 4]);
    let mut data = vec![0u8; 4 * 3];
    data[0] = 1;
    data[5] = 9;
    let make_seg = || {
        SegmentationOutcome::Detected(
            RawMaskBuffer {
                data: data.clone(),
                width: 4,
                height: 3,
                bytes_per_row: 4,
            },
            Some(1),
        )
    };
    let a = remove_background_from_bytes(&source, make_seg()).unwrap();
    let b = remove_background_from_bytes(&source, make_seg()).unwrap();
    assert_eq!(a.mask_png_base64, b.mask_png_base64);
    assert_eq!((a.width, a.height, a.revision), (b.width, b.height, b.revision));
}

#[test]
fn service_failure_is_passed_through() {
    let source = png_of_rgba(4, 4, vec![0u8; 4 * 4 * 4]);
    let result = remove_background_from_bytes(
        &source,
        SegmentationOutcome::Unavailable("backend offline".to_string()),
    );
    match result {
        Err(MaskError::ServiceUnavailable(d)) => assert_eq!(d, "backend offline"),
        _ => panic!("expected a service failure"),
    }
}

#[test]
fn probe_reads_dimensions_and_rejects_garbage() {
    let source = png_of_rgba(31, 17, vec![5u8; 31 * 17 * 4]);
    assert_eq!(probe_dimensions(&source).unwrap(), (31, 17));
    let garbage = vec![1u8, 2, 3, 4, 5];
    assert!(matches!(
        probe_dimensions(&garbage),
        Err(MaskError::DecodeError)
    ));
}

#[test]
fn base64_transport_decodes_or_fails() {
    assert_eq!(decode_image_base64("AQID").unwrap(), vec![1u8, 2, 3]);
    assert!(matches!(
        decode_image_base64("!!"),
        Err(MaskError::DecodeError)
    ));
}

#[test]
fn extraction_honors_stride_and_binarizes() {
    // 3x2 samples inside rows of 5 bytes; padding bytes hold noise.
    let data = vec![0u8, 1, 0, 99, 99, 2, 0, 3, 99, 99];
    let buf = RawMaskBuffer {
        data,
        width: 3,
        height: 2,
        bytes_per_row: 5,
    };
    let mask = extract_mask(&buf).unwrap();
    assert_eq!(mask, vec![0u8, 255, 0, 255, 0, 255]);
}

#[test]
fn extraction_reads_first_channel_of_wide_pixels() {
    // 2x1 samples, four bytes per pixel: only bytes 0 and 4 decide.
    let data = vec![0u8, 200, 200, 200, 17, 0, 0, 0];
    let buf = RawMaskBuffer {
        data,
        width: 2,
        height: 1,
        bytes_per_row: 8,
    };
    let mask = extract_mask(&buf).unwrap();
    assert_eq!(mask, vec![0u8, 255]);
}

#[test]
fn resampling_equal_dimensions_is_identity() {
    let mask = vec![0u8, 255, 17, 200];
    let out = resample_mask(&mask, 2, 2, 2, 2);
    assert_eq!(out, mask);
}

#[test]
fn resampling_keeps_corners_exact() {
    let mask = vec![10u8, 200, 30, 250];
    let out = resample_mask(&mask, 2, 2, 5, 5);
    assert_eq!(out.len(), 25);
    assert_eq!(out[0], 10);
    assert_eq!(out[4], 200);
    assert_eq!(out[20], 30);
    assert_eq!(out[24], 250);
}

#[test]
fn resampling_keeps_constant_masks_constant() {
    let mask = vec![200u8; 2 * 3];
    let out = resample_mask(&mask, 2, 3, 7, 5);
    assert_eq!(out.len(), 35);
    assert!(out.iter().all(|&v| v == 200));
}

#[test]
fn resampling_interpolates_linearly() {
    let mask = vec![0u8, 255];
    let out = resample_mask(&mask, 2, 1, 3, 1);
    assert_eq!(out, vec![0u8, 128, 255]);
}

#[test]
fn compositing_packs_white_with_mask_alpha() {
    let mask = vec![0u8, 128, 255];
    let raster = composite_alpha(&mask, 3, 1);
    assert_eq!(
        raster,
        vec![255u8, 255, 255, 0, 255, 255, 255, 128, 255, 255, 255, 255]
    );
}

#[test]
fn extraction_output_is_strictly_binary() {
    let data: Vec<u8> = (0u8..=49).collect();
    let buf = RawMaskBuffer {
        data,
        width: 10,
        height: 5,
        bytes_per_row: 10,
    };
    let mask = extract_mask(&buf).unwrap();
    assert_eq!(mask.len(), 50);
    assert!(mask.iter().all(|&v| v == 0 || v == 255));
    assert_eq!(mask[0], 0);
    assert!(mask[1..].iter().all(|&v| v == 255));
}
