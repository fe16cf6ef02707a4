use std::path::PathBuf;
use superbook_pdf::page_number::{
    DetectedPageNumber, MatchStage, PageNumberCandidate, PageNumberError, PageNumberMatch,
    PageNumberOptions, PageNumberPosition, PageNumberRect, Point, Rectangle,
};

/// A number from 0 to 1 and beyond, counted in millionths.
fn millionths(value: f64) -> u32 {
    (value * 1_000_000.0).round() as u32
}

/// A count of millionths as a number.
fn fraction(millionths: u64) -> f64 {
    millionths as f64 / 1_000_000.0
}

/// A distance in pixels, counted in thousandths of a pixel.
fn thousandths(pixels: f64) -> u64 {
    (pixels * 1000.0).round() as u64
}

/// A distance in thousandths of a pixel as a number of pixels.
fn pixels(thousandths: u64) -> f64 {
    thousandths as f64 / 1000.0
}

#[test]
fn test_page_number_options_default() {
    let opts = PageNumberOptions::default();
    assert_eq!(opts.search_region_percent, 10);
    assert_eq!(opts.min_confidence, 60);
    assert!(opts.numbers_only);
}

#[test]
fn test_page_number_options_japanese() {
    let opts = PageNumberOptions::japanese();
    assert_eq!(opts.ocr_language, "jpn");
    assert_eq!(opts.search_region_percent, 12);
}

#[test]
fn test_page_number_options_english() {
    let opts = PageNumberOptions::english();
    assert_eq!(opts.ocr_language, "eng");
}

#[test]
fn test_page_number_options_strict() {
    let opts = PageNumberOptions::strict();
    assert_eq!(opts.min_confidence, 80);
}

#[test]
fn test_page_number_options_builder() {
    let opts = PageNumberOptions::builder()
        .search_region_percent(15)
        .ocr_language("fra")
        .min_confidence(75)
        .numbers_only(false)
        .position_hint(PageNumberPosition::BottomCenter)
        .build();

    assert_eq!(opts.search_region_percent, 15);
    assert_eq!(opts.ocr_language, "fra");
    assert_eq!(opts.min_confidence, 75);
    assert!(!opts.numbers_only);
    assert!(matches!(
        opts.position_hint,
        Some(PageNumberPosition::BottomCenter)
    ));
}

#[test]
fn test_builder_clamping() {
    // Search region clamped to 5-50
    let opts = PageNumberOptions::builder()
        .search_region_percent(100)
        .build();
    assert_eq!(opts.search_region_percent, 50);

    let opts = PageNumberOptions::builder()
        .search_region_percent(1)
        .build();
    assert_eq!(opts.search_region_percent, 5);

    // Confidence clamped to 0-100
    let opts = PageNumberOptions::builder().min_confidence(150).build();
    assert_eq!(opts.min_confidence, 100);

    let opts = PageNumberOptions::builder().min_confidence(-10).build();
    assert_eq!(opts.min_confidence, 0);
}

#[test]
fn test_builder_keeps_other_settings() {
    let opts = PageNumberOptions::builder()
        .ocr_language("deu")
        .min_confidence(30)
        .search_region_percent(50)
        .build();
    assert_eq!(opts.ocr_language, "deu");
    assert_eq!(opts.min_confidence, 30);
    assert_eq!(opts.search_region_percent, 50);
    assert!(opts.numbers_only);
    assert!(opts.position_hint.is_none());
    let copy = opts.clone();
    assert_eq!(copy.ocr_language, "deu");
    assert_eq!(copy.min_confidence, 30);
}

#[test]
fn test_page_number_position_variants() {
    let positions = [
        PageNumberPosition::BottomCenter,
        PageNumberPosition::BottomOutside,
        PageNumberPosition::BottomInside,
        PageNumberPosition::TopCenter,
        PageNumberPosition::TopOutside,
    ];

    for pos in positions {
        let _clone = pos;
        assert!(matches!(
            pos,
            PageNumberPosition::BottomCenter
                | PageNumberPosition::BottomOutside
                | PageNumberPosition::BottomInside
                | PageNumberPosition::TopCenter
                | PageNumberPosition::TopOutside
        ));
    }
}

#[test]
fn test_page_number_rect() {
    let rect = PageNumberRect {
        x: 100,
        y: 200,
        width: 50,
        height: 30,
    };
    assert_eq!(rect.x, 100);
    assert_eq!(rect.y, 200);
    assert_eq!(rect.width, 50);
    assert_eq!(rect.height, 30);
}

#[test]
fn test_page_number_rect_to_rectangle() {
    let rect = PageNumberRect { x: 100, y: 200, width: 50, height: 30 };
    assert_eq!(rect.to_rectangle(), Rectangle::new(100, 200, 50, 30));
    let far = PageNumberRect { x: u32::MAX, y: 0, width: 1, height: 1 };
    assert_eq!(far.to_rectangle(), Rectangle::new(i32::MAX, 0, 1, 1));
}

#[test]
fn test_detected_page_number() {
    let detected = DetectedPageNumber {
        page_index: 5,
        number: Some(42),
        position: PageNumberRect {
            x: 100,
            y: 900,
            width: 50,
            height: 30,
        },
        confidence: millionths(95.5),
        raw_text: "42".to_string(),
    };

    assert_eq!(detected.page_index, 5);
    assert_eq!(detected.number, Some(42));
    assert_eq!(fraction(detected.confidence as u64), 95.5);
    assert_eq!(detected.raw_text, "42");
}

#[test]
fn test_error_types() {
    let _err1 = PageNumberError::ImageNotFound(PathBuf::from("/test/path"));
    let _err2 = PageNumberError::OcrFailed("OCR error".to_string());
    let _err3 = PageNumberError::NoPageNumbersDetected;
    let _err4 = PageNumberError::InconsistentPageNumbers;
    let _err5: PageNumberError = std::io::Error::other("test").into();
}

#[test]
fn test_error_from_io_error_is_io_variant() {
    let err: PageNumberError = std::io::Error::other("test").into();
    assert!(matches!(err, PageNumberError::IoError(_)));
}

#[test]
fn test_rectangle_new() {
    let rect = Rectangle::new(10, 20, 100, 50);
    assert_eq!(rect.x, 10);
    assert_eq!(rect.y, 20);
    assert_eq!(rect.width, 100);
    assert_eq!(rect.height, 50);
}

#[test]
fn test_rectangle_contains() {
    let rect = Rectangle::new(0, 0, 100, 100);
    assert!(rect.contains(50, 50));
    assert!(rect.contains(0, 0));
    assert!(rect.contains(99, 99));
    assert!(!rect.contains(100, 50)); // edge
    assert!(!rect.contains(-1, 50));
    assert!(!rect.contains(50, 100));
}

#[test]
fn test_rectangle_overlaps() {
    let rect1 = Rectangle::new(0, 0, 100, 100);
    let rect2 = Rectangle::new(50, 50, 100, 100);
    let rect3 = Rectangle::new(200, 200, 50, 50);

    assert!(rect1.overlaps(&rect2));
    assert!(rect2.overlaps(&rect1));
    assert!(!rect1.overlaps(&rect3));
}

#[test]
fn test_rectangle_center() {
    let rect = Rectangle::new(0, 0, 100, 200);
    assert_eq!(rect.center(), (50, 100));

    let rect2 = Rectangle::new(10, 20, 100, 100);
    assert_eq!(rect2.center(), (60, 70));
}

#[test]
fn test_rectangle_distance_to() {
    let rect = Rectangle::new(0, 0, 100, 100);
    // Center is at (50, 50)
    assert!((pixels(rect.distance_to(50, 50)) - 0.0).abs() < 0.001);
    assert!((pixels(rect.distance_to(50, 100)) - 50.0).abs() < 0.001);
}

#[test]
fn test_rectangle_expand() {
    let rect = Rectangle::new(100, 100, 100, 100);
    let expanded = rect.expand(10); // 10% margin
    assert_eq!(expanded.x, 90);
    assert_eq!(expanded.y, 90);
    assert_eq!(expanded.width, 120);
    assert_eq!(expanded.height, 120);
}

#[test]
fn test_page_number_candidate_new() {
    let candidate = PageNumberCandidate::new(
        "42".to_string(),
        Rectangle::new(100, 900, 50, 30),
        millionths(0.95),
    );
    assert_eq!(candidate.text, "42");
    assert_eq!(candidate.number, Some(42));
    assert!(candidate.ocr_success);
    assert_eq!(fraction(candidate.confidence as u64), 0.95);
}

#[test]
fn test_page_number_candidate_no_number() {
    let candidate = PageNumberCandidate::new(
        "abc".to_string(),
        Rectangle::new(100, 900, 50, 30),
        millionths(0.80),
    );
    assert_eq!(candidate.text, "abc");
    assert_eq!(candidate.number, None);
    assert!(candidate.ocr_success); // still considered success if text detected
}

#[test]
fn test_page_number_candidate_empty() {
    let candidate = PageNumberCandidate::new(
        "".to_string(),
        Rectangle::new(100, 900, 50, 30),
        millionths(0.50),
    );
    assert!(!candidate.ocr_success);
}

#[test]
fn test_match_stage_number() {
    assert_eq!(MatchStage::ExactMatch.stage_number(), 1);
    assert_eq!(MatchStage::SimilarityMatch.stage_number(), 2);
    assert_eq!(MatchStage::OcrSuccessMatch.stage_number(), 3);
    assert_eq!(MatchStage::FallbackMatch.stage_number(), 4);
}

#[test]
fn test_match_stage_description() {
    assert!(MatchStage::ExactMatch.description().contains("Exact"));
    assert!(MatchStage::SimilarityMatch.description().contains("similarity"));
    assert!(MatchStage::OcrSuccessMatch.description().contains("OCR"));
    assert!(MatchStage::FallbackMatch.description().contains("Fallback"));
}

#[test]
fn test_page_number_match_new() {
    let candidate = PageNumberCandidate::new(
        "42".to_string(),
        Rectangle::new(100, 900, 50, 30),
        millionths(0.95),
    );
    let match_result = PageNumberMatch::new(
        candidate,
        MatchStage::ExactMatch,
        millionths(1.0),
        thousandths(10.0),
        42,
    );
    assert!(match_result.is_exact());
    assert_eq!(match_result.expected_number, 42);
    assert_eq!(pixels(match_result.distance), 10.0);
}

#[test]
fn test_page_number_match_quality() {
    let candidate = PageNumberCandidate::new(
        "42".to_string(),
        Rectangle::new(100, 900, 50, 30),
        millionths(0.95),
    );

    let exact_match = PageNumberMatch::new(
        candidate.clone(),
        MatchStage::ExactMatch,
        millionths(1.0),
        thousandths(10.0),
        42,
    );
    let fallback_match = PageNumberMatch::new(
        candidate,
        MatchStage::FallbackMatch,
        millionths(0.5),
        thousandths(10.0),
        42,
    );

    // Exact match should have higher quality
    assert!(exact_match.quality() > fallback_match.quality());
}

#[test]
fn test_match_quality_values() {
    let candidate = PageNumberCandidate::new("7".to_string(), Rectangle::new(0, 0, 10, 10), 0);
    let quality_of = |stage: MatchStage, score: u32, distance: u64| {
        PageNumberMatch::new(candidate.clone(), stage, score, distance, 7).quality()
    };
    // 1.0 + score
    assert_eq!(quality_of(MatchStage::ExactMatch, millionths(1.0), 0), 2_000_000);
    // 0.75 + score * 0.25
    assert_eq!(quality_of(MatchStage::SimilarityMatch, millionths(0.8), 0), 950_000);
    // 0.5 + (1 - distance / 1000) * 0.25
    assert_eq!(quality_of(MatchStage::OcrSuccessMatch, 0, thousandths(200.0)), 700_000);
    assert_eq!(quality_of(MatchStage::OcrSuccessMatch, 0, thousandths(5000.0)), 500_000);
    // 0.25 + (1 - distance / 1000) * 0.25
    assert_eq!(quality_of(MatchStage::FallbackMatch, 0, thousandths(0.0)), 500_000);
    assert_eq!(quality_of(MatchStage::FallbackMatch, 0, thousandths(1000.0)), 250_000);
}

#[test]
fn test_candidate_number_grammar() {
    let region = Rectangle::new(0, 0, 10, 10);
    let number_of = |text: &str| PageNumberCandidate::new(text.to_string(), region, 0).number;
    assert_eq!(number_of("  42\n"), Some(42));
    assert_eq!(number_of("+7"), Some(7));
    assert_eq!(number_of("007"), Some(7));
    assert_eq!(number_of("4294967295"), Some(u32::MAX));
    assert_eq!(number_of("4294967296"), None);
    assert_eq!(number_of("-1"), None);
    assert_eq!(number_of("+"), None);
    assert_eq!(number_of("4 2"), None);
    assert_eq!(number_of("\u{3000}12\u{3000}"), Some(12));
    let blank = PageNumberCandidate::new(" \t ".to_string(), region, 0);
    assert!(!blank.ocr_success);
    assert_eq!(blank.text, " \t ");
}

#[test]
fn test_candidate_distance() {
    let candidate = PageNumberCandidate::new("1".to_string(), Rectangle::new(0, 0, 100, 100), 0);
    // From the center (50, 50) to (53, 54): a 3-4-5 triangle.
    assert_eq!(candidate.distance_to(53, 54), 5_000);
    // The diagonal of the unit square, rounded down.
    assert_eq!(candidate.distance_to(51, 51), 1_414);
}

#[test]
fn test_point_distance() {
    let origin = Point::default();
    assert_eq!(origin, Point::new(0, 0));
    assert_eq!(origin.distance_sq_to(&Point::new(3, 4)), 25);
    assert_eq!(origin.distance_to(&Point::new(3, 4)), 5_000);
    let far = Point::new(i32::MIN, i32::MIN).distance_sq_to(&Point::new(i32::MAX, i32::MAX));
    assert_eq!(far, 2 * (u32::MAX as u128) * (u32::MAX as u128));
}

#[test]
fn test_rectangle_edges_of_the_range() {
    // Zero extent: area 0, center at the corner, nothing inside.
    let empty = Rectangle::new(5, 7, 0, 0);
    assert_eq!(empty.area(), 0);
    assert_eq!(empty.center(), (5, 7));
    assert!(!empty.contains(5, 7));
    // The largest rectangle: nothing overflows.
    let huge = Rectangle::new(i32::MAX, i32::MAX, u32::MAX, u32::MAX);
    assert_eq!(huge.area(), (u32::MAX as u64) * (u32::MAX as u64));
    assert_eq!(huge.center(), (i32::MAX, i32::MAX));
    assert!(huge.contains(i32::MAX, i32::MAX));
    let grown = huge.expand(50);
    assert_eq!(grown.width, u32::MAX);
    let low = Rectangle::new(i32::MIN, i32::MIN, 100, 100).expand(10);
    assert_eq!(low, Rectangle::new(i32::MIN, i32::MIN, 120, 120));
}

#[test]
fn test_rectangle_intersection() {
    let a = Rectangle::new(0, 0, 100, 100);
    let b = Rectangle::new(50, 60, 100, 100);
    assert_eq!(a.intersection(&b), Some(Rectangle::new(50, 60, 50, 40)));
    assert_eq!(b.intersection(&a), Some(Rectangle::new(50, 60, 50, 40)));
    // Touching edges share no area.
    assert_eq!(a.intersection(&Rectangle::new(100, 0, 10, 10)), None);
    assert!(a.contains_rect(&Rectangle::new(10, 10, 90, 90)));
    assert!(!a.contains_rect(&b));
    assert_eq!(a.center_point(), Point::new(50, 50));
}
