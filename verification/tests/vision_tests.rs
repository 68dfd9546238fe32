use akbox::vision::tally_marker_passes;
use akbox::vision::InventoryPageSignatureError;
use akbox::vision::LowConfidencePolicy;
use akbox::vision::PageActionDefinition;
use akbox::vision::PageConfirmationMarker;
use akbox::vision::PageConfirmationStrategy;
use akbox::vision::PageStateCatalog;
use akbox::vision::PageStateDefinition;
use akbox::vision::ReferenceResolution;
use akbox::vision::RoiCropError;
use akbox::vision::RoiDefinition;
use akbox::vision::RoiPreprocessStep;
use akbox::vision::RoiPurpose;
use akbox::vision::RoiRect;
use akbox::vision::TemplateMatchMethod;
use akbox::vision::VisionConfigError;
use akbox::vision::average_hash64;
use akbox::vision::build_inventory_page_signature;
use akbox::vision::compare_inventory_page_signatures;
use akbox::vision::count_ones;
use akbox::vision::crop_all_rois_from_png;
use akbox::vision::crop_single_roi_from_png;
use akbox::vision::is_threshold_in_unit_range;
use akbox::vision::scale_dimension;
use image::DynamicImage;
use image::ImageBuffer;
use image::ImageFormat;
use image::Rgba;
use std::io::Cursor;

fn sample_page_definition(reference_width: u32, reference_height: u32) -> PageStateDefinition {
    PageStateDefinition {
        page_id: "inventory_main".to_string(),
        display_name: "仓库主页".to_string(),
        reference_resolution: ReferenceResolution { width: reference_width, height: reference_height },
        confirmation_markers: vec![PageConfirmationMarker {
            marker_id: "title_marker".to_string(),
            rect: RoiRect { x: 0, y: 0, width: 2, height: 1 },
            strategy: PageConfirmationStrategy::TemplateFingerprint,
            match_method: TemplateMatchMethod::NormalizedGrayscaleMae,
            template_path: Some("markers/title_marker.png".to_string()),
            pass_threshold: Some(0.98f32.to_bits()),
            expected_hint: Some("仓库".to_string()),
            note: Some("页面标题".to_string()),
        }],
        rois: vec![
            RoiDefinition {
                roi_id: "title_text".to_string(),
                display_name: "标题文本".to_string(),
                rect: RoiRect { x: 0, y: 0, width: 2, height: 2 },
                purpose: RoiPurpose::ShortTextOcr,
                preprocess_steps: vec![RoiPreprocessStep::Grayscale],
                confidence_threshold: Some(0.98f32.to_bits()),
                low_confidence_policy: LowConfidencePolicy::QueueReview,
            },
            RoiDefinition {
                roi_id: "item_icon".to_string(),
                display_name: "物品图标".to_string(),
                rect: RoiRect { x: 2, y: 2, width: 2, height: 2 },
                purpose: RoiPurpose::IconTemplate,
                preprocess_steps: vec![RoiPreprocessStep::Upscale2x],
                confidence_threshold: Some(0.9f32.to_bits()),
                low_confidence_policy: LowConfidencePolicy::AutoAccept,
            },
        ],
        supported_actions: vec![PageActionDefinition {
            action_id: "open_detail".to_string(),
            description: "打开条目详情".to_string(),
            target_page_id: Some("inventory_detail".to_string()),
        }],
        recovery_actions: vec![PageActionDefinition {
            action_id: "back".to_string(),
            description: "返回上一页".to_string(),
            target_page_id: None,
        }],
    }
}

fn sample_png(width: u32, height: u32) -> Vec<u8> {
    let image = ImageBuffer::from_fn(width, height, |x, y| {
        if x < width / 2 && y < height / 2 {
            Rgba([255u8, 0, 0, 255])
        } else if x >= width / 2 && y < height / 2 {
            Rgba([0, 255, 0, 255])
        } else if x < width / 2 && y >= height / 2 {
            Rgba([0, 0, 255, 255])
        } else {
            Rgba([255, 255, 0, 255])
        }
    });
    let mut encoded = Cursor::new(Vec::new());
    DynamicImage::ImageRgba8(image).write_to(&mut encoded, ImageFormat::Png).unwrap();
    encoded.into_inner()
}

fn signature_page() -> PageStateDefinition {
    let mut page = sample_page_definition(4, 4);
    page.rois.push(RoiDefinition {
        roi_id: "signature_top".to_string(),
        display_name: "上半".to_string(),
        rect: RoiRect { x: 0, y: 0, width: 4, height: 2 },
        purpose: RoiPurpose::Generic,
        preprocess_steps: Vec::new(),
        confidence_threshold: None,
        low_confidence_policy: LowConfidencePolicy::QueueReview,
    });
    page.rois.push(RoiDefinition {
        roi_id: "signature_left".to_string(),
        display_name: "左半".to_string(),
        rect: RoiRect { x: 0, y: 0, width: 2, height: 4 },
        purpose: RoiPurpose::Generic,
        preprocess_steps: Vec::new(),
        confidence_threshold: None,
        low_confidence_policy: LowConfidencePolicy::QueueReview,
    });
    page
}

#[test]
fn page_catalog_rejects_missing_action_target() {
    let catalog = PageStateCatalog {
        pages: vec![PageStateDefinition {
            page_id: "inventory_main".to_string(),
            display_name: "仓库主页".to_string(),
            reference_resolution: ReferenceResolution { width: 1920, height: 1080 },
            confirmation_markers: Vec::new(),
            rois: Vec::new(),
            supported_actions: vec![PageActionDefinition {
                action_id: "open_detail".to_string(),
                description: "打开详情".to_string(),
                target_page_id: Some("inventory_detail".to_string()),
            }],
            recovery_actions: Vec::new(),
        }],
    };

    match catalog.validate() {
        Err(VisionConfigError::InvalidConfig { message }) => {
            assert!(message.contains("指向不存在的目标页面"));
        }
        Err(_) => panic!("unexpected error"),
        Ok(()) => panic!("the catalog must be refused"),
    }
}

#[test]
fn crop_all_rois_preserves_declared_order_and_metadata() {
    let page = sample_page_definition(4, 4);
    let screenshot = sample_png(4, 4);

    let crops = match crop_all_rois_from_png(&page, &screenshot) {
        Ok(crops) => crops,
        Err(_) => panic!("crop failed"),
    };

    assert_eq!(crops.len(), 2);
    assert_eq!(crops[0].roi.roi_id, "title_text");
    assert_eq!(crops[0].resolved_rect.width, 2);
    assert_eq!(crops[0].resolved_rect.height, 2);
    assert!(crops[0].artifact_payload().low_confidence_policy == LowConfidencePolicy::QueueReview);
    assert_eq!(crops[1].roi.roi_id, "item_icon");
}

#[test]
fn crop_single_roi_scales_reference_coordinates_to_actual_image() {
    let page = sample_page_definition(4, 4);
    let screenshot = sample_png(8, 8);

    let crop = match crop_single_roi_from_png(&page, "item_icon", &screenshot) {
        Ok(crop) => crop,
        Err(_) => panic!("crop failed"),
    };

    assert_eq!(crop.resolved_rect.x, 4);
    assert_eq!(crop.resolved_rect.y, 4);
    assert_eq!(crop.resolved_rect.width, 4);
    assert_eq!(crop.resolved_rect.height, 4);

    let decoded = image::load_from_memory_with_format(&crop.png_bytes, ImageFormat::Png).unwrap();
    assert_eq!(decoded.width(), 4);
    assert_eq!(decoded.height(), 4);
}

#[test]
fn crop_single_roi_reports_unknown_region() {
    let page = sample_page_definition(4, 4);
    let screenshot = sample_png(4, 4);
    match crop_single_roi_from_png(&page, "missing", &screenshot) {
        Err(RoiCropError::RoiNotFound { page_id, roi_id }) => {
            assert_eq!(page_id, "inventory_main");
            assert_eq!(roi_id, "missing");
        }
        Err(_) => panic!("unexpected error"),
        Ok(_) => panic!("an unknown region cannot be cut"),
    }
}

#[test]
fn crop_rejects_undecodable_screenshot() {
    let page = sample_page_definition(4, 4);
    match crop_all_rois_from_png(&page, b"not-a-png") {
        Err(RoiCropError::DecodePng { .. }) => {}
        Err(_) => panic!("unexpected error"),
        Ok(_) => panic!("an invalid PNG cannot be cut"),
    }
}

#[test]
fn artifact_payload_copies_the_region_metadata() {
    let page = sample_page_definition(4, 4);
    let screenshot = sample_png(4, 4);
    let crop = match crop_single_roi_from_png(&page, "title_text", &screenshot) {
        Ok(crop) => crop,
        Err(_) => panic!("crop failed"),
    };
    let payload = crop.artifact_payload();
    assert_eq!(payload.page_id, "inventory_main");
    assert_eq!(payload.roi_id, "title_text");
    assert_eq!(payload.display_name, "标题文本");
    assert!(payload.purpose == RoiPurpose::ShortTextOcr);
    assert_eq!(payload.source_image_width, 4);
    assert_eq!(payload.confidence_threshold, Some(0.98f32.to_bits()));
}

#[test]
fn valid_catalog_passes_and_duplicate_page_ids_are_refused() {
    let mut page = sample_page_definition(4, 4);
    page.supported_actions.clear();
    let catalog = PageStateCatalog { pages: vec![page] };
    assert!(catalog.validate().is_ok());

    let mut first = sample_page_definition(4, 4);
    first.supported_actions.clear();
    let mut second = sample_page_definition(4, 4);
    second.supported_actions.clear();
    let catalog = PageStateCatalog { pages: vec![first, second] };
    match catalog.validate() {
        Err(VisionConfigError::InvalidConfig { message }) => assert_eq!(message, "page_id 重复：inventory_main"),
        _ => panic!("duplicate ids must be refused"),
    }
}

#[test]
fn thresholds_outside_the_unit_range_are_refused() {
    assert!(is_threshold_in_unit_range(0.0f32.to_bits()));
    assert!(is_threshold_in_unit_range(1.0f32.to_bits()));
    assert!(is_threshold_in_unit_range((-0.0f32).to_bits()));
    assert!(!is_threshold_in_unit_range(1.5f32.to_bits()));
    assert!(!is_threshold_in_unit_range((-0.1f32).to_bits()));
    assert!(!is_threshold_in_unit_range(f32::NAN.to_bits()));

    let mut page = sample_page_definition(4, 4);
    page.supported_actions.clear();
    page.rois[0].confidence_threshold = Some(1.5f32.to_bits());
    let catalog = PageStateCatalog { pages: vec![page] };
    match catalog.validate() {
        Err(VisionConfigError::ThresholdOutOfRange { threshold_bits, .. }) => {
            assert_eq!(threshold_bits, 1.5f32.to_bits());
        }
        _ => panic!("the threshold must be refused"),
    }
}

#[test]
fn dimensions_scale_by_the_reference_resolution() {
    assert_eq!(scale_dimension(2, 8, 4), 4);
    assert_eq!(scale_dimension(3, 10, 4), 8);
    assert_eq!(scale_dimension(5, 5, 5), 5);
}

#[test]
fn bit_counts_and_average_hashes() {
    assert_eq!(count_ones(0), 0);
    assert_eq!(count_ones(u64::MAX), 64);
    assert_eq!(count_ones(0b1011), 3);
    let mut luma = vec![0u8; 64];
    luma[0] = 255;
    luma[63] = 255;
    assert_eq!(average_hash64(&luma), (1u64 << 63) | 1);
    assert_eq!(average_hash64(&[7u8; 64]), u64::MAX);
}

#[test]
fn inventory_page_signature_matches_itself() {
    let page = signature_page();
    let screenshot = sample_png(4, 4);
    let signature = match build_inventory_page_signature(&page, &screenshot) {
        Ok(signature) => signature,
        Err(_) => panic!("signature failed"),
    };
    assert_eq!(signature.page_id, "inventory_main");
    assert_eq!(signature.entries.len(), 2);
    assert_eq!(signature.entries[0].roi_id, "signature_left");
    assert_eq!(signature.entries[1].roi_id, "signature_top");

    let comparison = compare_inventory_page_signatures(&signature, &signature, 0);
    assert_eq!(comparison.total_regions, 2);
    assert_eq!(comparison.matched_regions, 2);
    assert_eq!(comparison.max_hamming_distance, 0);
    assert!(comparison.is_same_page);
}

#[test]
fn inventory_page_signature_detects_a_different_screenshot() {
    let page = signature_page();
    let left = match build_inventory_page_signature(&page, &sample_png(4, 4)) {
        Ok(signature) => signature,
        Err(_) => panic!("signature failed"),
    };
    let plain = {
        let image = ImageBuffer::from_pixel(4, 4, Rgba([255u8, 255, 255, 255]));
        let mut encoded = Cursor::new(Vec::new());
        DynamicImage::ImageRgba8(image).write_to(&mut encoded, ImageFormat::Png).unwrap();
        encoded.into_inner()
    };
    let right = match build_inventory_page_signature(&page, &plain) {
        Ok(signature) => signature,
        Err(_) => panic!("signature failed"),
    };
    let comparison = compare_inventory_page_signatures(&left, &right, 0);
    assert_eq!(comparison.total_regions, 2);
    assert!(comparison.max_hamming_distance > 0);
    assert!(!comparison.is_same_page);
}

#[test]
fn page_without_signature_regions_has_no_signature() {
    let page = sample_page_definition(4, 4);
    match build_inventory_page_signature(&page, &sample_png(4, 4)) {
        Err(InventoryPageSignatureError::MissingSignatureRegions { page_id }) => {
            assert_eq!(page_id, "inventory_main");
        }
        _ => panic!("a page without signature regions has no signature"),
    }
}

#[test]
fn marker_tally_counts_passes_and_requires_all() {
    assert_eq!(tally_marker_passes(&[true, false, true]), (2, false));
    assert_eq!(tally_marker_passes(&[true, true]), (2, true));
    assert_eq!(tally_marker_passes(&[]), (0, true));
}
