use akbox::ocr::OcrBackend;
use akbox::ocr::OcrError;
use akbox::ocr::OcrRequest;
use akbox::ocr::build_ocr_result;
use akbox::ocr::normalize_numeric_ocr_text;
use akbox::ocr::normalize_ocr_text;
use akbox::ocr::recognize_text_from_png;
use image::DynamicImage;
use image::ImageBuffer;
use image::ImageFormat;
use image::Rgba;
use std::io::Cursor;

fn sample_png() -> Vec<u8> {
    let image = ImageBuffer::from_pixel(2, 2, Rgba([255u8, 255, 255, 255]));
    let mut encoded = Cursor::new(Vec::new());
    DynamicImage::ImageRgba8(image).write_to(&mut encoded, ImageFormat::Png).unwrap();
    encoded.into_inner()
}

#[test]
fn recognize_text_rejects_invalid_png() {
    match recognize_text_from_png(b"not-a-png", &OcrRequest::default()) {
        Err(error) => assert!(matches!(error, OcrError::InvalidPng { .. })),
        Ok(_) => panic!("an invalid PNG must be refused"),
    }
}

#[test]
fn normalize_numeric_ocr_text_maps_fullwidth_digits_and_symbols() {
    let normalized = normalize_numeric_ocr_text("１２３：４５／６７．８％＋９");

    assert_eq!(normalized, "123:45/67.8%+9");
}

#[test]
fn recognize_text_for_valid_png_reports_stub_backend_unavailable() {
    let png_bytes = sample_png();

    match recognize_text_from_png(&png_bytes, &OcrRequest::default()) {
        Err(OcrError::BackendUnavailable { backend, details }) => {
            assert!(backend == OcrBackend::Stub);
            assert!(details.contains("不是 Windows"));
        }
        Err(_) => panic!("unexpected error"),
        Ok(_) => panic!("the stub backend recognises nothing"),
    }
}

#[test]
fn default_request_asks_for_simplified_chinese() {
    let request = OcrRequest::default();
    assert_eq!(request.languages, vec!["zh-CN".to_string()]);
    assert!(request.hint_text.is_none());
    assert!(!request.numeric_only);
}

#[test]
fn numeric_text_drops_everything_but_digits_and_symbols() {
    assert_eq!(normalize_numeric_ocr_text(" 1 2a3 "), "123");
    assert_eq!(normalize_numeric_ocr_text("—１０×"), "-10");
    assert_eq!(normalize_numeric_ocr_text(""), "");
}

#[test]
fn plain_text_is_trimmed_and_numeric_text_normalised() {
    assert_eq!(normalize_ocr_text("  仓库 \n", false), "仓库");
    assert_eq!(normalize_ocr_text(" １２ ", true), "12");
}

#[test]
fn ocr_result_keeps_non_empty_lines() {
    let request = OcrRequest { numeric_only: true, ..OcrRequest::default() };
    let lines = vec!["１２".to_string(), "   ".to_string(), "3 4".to_string()];
    let result = build_ocr_result(&lines, "１２ 3 4", &request);
    assert!(result.backend == OcrBackend::WindowsNative);
    assert_eq!(result.lines.len(), 2);
    assert_eq!(result.lines[0].text, "12");
    assert_eq!(result.lines[1].text, "34");
    assert_eq!(result.text, "1234");
}
