use superbook_pdf::page_number::detect::{
    stage1_exact_match, stage2_similarity_match, stage3_ocr_success_match, stage4_fallback_match,
    similarity_scores,
};
use superbook_pdf::page_number::{
    find_page_number_with_fallback, find_page_numbers_batch, select_match, DetectedPageNumber,
    FallbackMatchStats, MatchStage, PageNumberAnalysis, PageNumberCandidate, PageNumberMatch,
    PageNumberOptions, PageNumberPosition, PageNumberRect, Rectangle, TesseractPageDetector,
    MIN_SIMILARITY_THRESHOLD,
};

/// A number from 0 to 1, counted in millionths.
fn millionths(value: f64) -> u32 {
    (value * 1_000_000.0).round() as u32
}

/// A count of millionths as a number.
fn fraction(millionths: u64) -> f64 {
    millionths as f64 / 1_000_000.0
}

/// A distance in thousandths of a pixel as a number of pixels.
fn pixels(thousandths: u64) -> f64 {
    thousandths as f64 / 1000.0
}

/// The bit pattern of a double-precision number.
fn bits(value: f64) -> u64 {
    value.to_bits()
}

#[test]
fn test_roman_numeral_parsing() {
    assert_eq!(TesseractPageDetector::parse_roman_numeral("I"), Some(1));
    assert_eq!(TesseractPageDetector::parse_roman_numeral("IV"), Some(4));
    assert_eq!(TesseractPageDetector::parse_roman_numeral("V"), Some(5));
    assert_eq!(TesseractPageDetector::parse_roman_numeral("IX"), Some(9));
    assert_eq!(TesseractPageDetector::parse_roman_numeral("X"), Some(10));
    assert_eq!(TesseractPageDetector::parse_roman_numeral("XL"), Some(40));
    assert_eq!(TesseractPageDetector::parse_roman_numeral("L"), Some(50));
    assert_eq!(TesseractPageDetector::parse_roman_numeral("XC"), Some(90));
    assert_eq!(TesseractPageDetector::parse_roman_numeral("C"), Some(100));
    assert_eq!(TesseractPageDetector::parse_roman_numeral("CD"), Some(400));
    assert_eq!(TesseractPageDetector::parse_roman_numeral("D"), Some(500));
    assert_eq!(TesseractPageDetector::parse_roman_numeral("CM"), Some(900));
    assert_eq!(TesseractPageDetector::parse_roman_numeral("M"), Some(1000));
    assert_eq!(
        TesseractPageDetector::parse_roman_numeral("MCMXCIX"),
        Some(1999)
    );
    assert_eq!(
        TesseractPageDetector::parse_roman_numeral("MMXXIII"),
        Some(2023)
    );
}

#[test]
fn test_roman_numeral_invalid() {
    assert_eq!(TesseractPageDetector::parse_roman_numeral(""), None);
    assert_eq!(TesseractPageDetector::parse_roman_numeral("ABC"), None);
    assert_eq!(TesseractPageDetector::parse_roman_numeral("123"), None);
}

#[test]
fn test_roman_numeral_lowercase_and_trimmed() {
    assert_eq!(TesseractPageDetector::parse_roman_numeral("  xiv \n"), Some(14));
    assert_eq!(TesseractPageDetector::parse_roman_numeral("iiii"), Some(4));
    assert_eq!(TesseractPageDetector::parse_roman_numeral("x i"), None);
    assert_eq!(TesseractPageDetector::parse_roman_numeral("ixx"), None);
    assert_eq!(TesseractPageDetector::parse_roman_numeral("   "), None);
}

#[test]
fn test_find_missing_pages() {
    let numbers = vec![1, 2, 4, 5, 7];
    let missing = TesseractPageDetector::find_missing_pages(&numbers);
    assert!(missing.contains(&2)); // 3 is missing (index 2 from min)
    assert!(missing.contains(&5)); // 6 is missing (index 5 from min)
}

#[test]
fn test_find_missing_pages_exact() {
    assert_eq!(TesseractPageDetector::find_missing_pages(&[1, 2, 4, 5, 7]), vec![2, 5]);
    assert_eq!(TesseractPageDetector::find_missing_pages(&[7, 3]), vec![1, 2, 3]);
    assert_eq!(TesseractPageDetector::find_missing_pages(&[-2, 1]), vec![1, 2]);
    assert_eq!(TesseractPageDetector::find_missing_pages(&[5]), Vec::<usize>::new());
    assert_eq!(TesseractPageDetector::find_missing_pages(&[]), Vec::<usize>::new());
}

#[test]
fn test_find_duplicate_pages() {
    let numbers = vec![1, 2, 2, 3, 4, 4, 4];
    let duplicates = TesseractPageDetector::find_duplicate_pages(&numbers);
    assert!(duplicates.contains(&2));
    assert!(duplicates.contains(&4));
}

#[test]
fn test_find_duplicate_pages_exact() {
    let numbers = vec![1, 2, 2, 3, 4, 4, 4, 1];
    assert_eq!(TesseractPageDetector::find_duplicate_pages(&numbers), vec![2, 4, 4, 1]);
    assert_eq!(TesseractPageDetector::find_duplicate_pages(&[]), Vec::<i32>::new());
}

fn detection(page_index: usize, number: Option<i32>, x: u32, confidence: f64) -> DetectedPageNumber {
    DetectedPageNumber {
        page_index,
        number,
        position: PageNumberRect { x, y: 0, width: 100, height: 50 },
        confidence: millionths(confidence),
        raw_text: match number {
            Some(n) => n.to_string(),
            None => String::new(),
        },
    }
}

#[test]
fn test_validate_order_ascending() {
    let analysis = PageNumberAnalysis {
        detections: vec![
            DetectedPageNumber {
                page_index: 0,
                number: Some(1),
                position: PageNumberRect {
                    x: 0,
                    y: 0,
                    width: 100,
                    height: 50,
                },
                confidence: millionths(0.9),
                raw_text: "1".to_string(),
            },
            DetectedPageNumber {
                page_index: 1,
                number: Some(2),
                position: PageNumberRect {
                    x: 0,
                    y: 0,
                    width: 100,
                    height: 50,
                },
                confidence: millionths(0.9),
                raw_text: "2".to_string(),
            },
            DetectedPageNumber {
                page_index: 2,
                number: Some(3),
                position: PageNumberRect {
                    x: 0,
                    y: 0,
                    width: 100,
                    height: 50,
                },
                confidence: millionths(0.9),
                raw_text: "3".to_string(),
            },
        ],
        position_pattern: PageNumberPosition::BottomCenter,
        odd_page_offset_x: 0,
        even_page_offset_x: 0,
        overall_confidence: millionths(0.9),
        missing_pages: vec![],
        duplicate_pages: vec![],
    };

    assert!(TesseractPageDetector::validate_order(&analysis).unwrap());
}

#[test]
fn test_validate_order_not_ascending() {
    let analysis = PageNumberAnalysis {
        detections: vec![
            DetectedPageNumber {
                page_index: 0,
                number: Some(3),
                position: PageNumberRect {
                    x: 0,
                    y: 0,
                    width: 100,
                    height: 50,
                },
                confidence: millionths(0.9),
                raw_text: "3".to_string(),
            },
            DetectedPageNumber {
                page_index: 1,
                number: Some(1),
                position: PageNumberRect {
                    x: 0,
                    y: 0,
                    width: 100,
                    height: 50,
                },
                confidence: millionths(0.9),
                raw_text: "1".to_string(),
            },
        ],
        position_pattern: PageNumberPosition::BottomCenter,
        odd_page_offset_x: 0,
        even_page_offset_x: 0,
        overall_confidence: millionths(0.9),
        missing_pages: vec![],
        duplicate_pages: vec![],
    };

    assert!(!TesseractPageDetector::validate_order(&analysis).unwrap());
}

#[test]
fn test_validate_order_skips_pages_without_number() {
    let ordered = TesseractPageDetector::summarize_detections(vec![
        detection(0, Some(1), 0, 0.9),
        detection(1, None, 0, 0.0),
        detection(2, Some(3), 0, 0.9),
    ]);
    assert!(TesseractPageDetector::validate_order(&ordered).unwrap());
    let repeated = TesseractPageDetector::summarize_detections(vec![
        detection(0, Some(2), 0, 0.9),
        detection(1, None, 0, 0.0),
        detection(2, Some(2), 0, 0.9),
    ]);
    assert!(!TesseractPageDetector::validate_order(&repeated).unwrap());
    let single = TesseractPageDetector::summarize_detections(vec![detection(0, Some(9), 0, 0.9)]);
    assert!(TesseractPageDetector::validate_order(&single).unwrap());
}

#[test]
fn test_summarize_detections() {
    let analysis = TesseractPageDetector::summarize_detections(vec![
        detection(0, Some(1), 800, 0.9),
        detection(1, Some(2), 100, 0.7),
        detection(2, Some(3), 820, 0.8),
        detection(3, Some(3), 0, 0.4),
        detection(4, Some(6), 120, 0.2),
        detection(5, None, 500, 0.0),
    ]);
    // Odd numbers 1, 3, 3 at centers 850, 870, 50; even numbers 2, 6 at 150, 170.
    assert_eq!(analysis.odd_page_offset_x, 590);
    assert_eq!(analysis.even_page_offset_x, 160);
    assert_eq!(analysis.position_pattern, PageNumberPosition::BottomOutside);
    assert_eq!(analysis.missing_pages, vec![3, 4]);
    assert_eq!(analysis.duplicate_pages, vec![3]);
    assert_eq!(analysis.overall_confidence, 500_000);
    assert_eq!(analysis.detections.len(), 6);

    let correction = TesseractPageDetector::calculate_offset(&analysis, 1000).unwrap();
    assert_eq!(
        correction.page_offsets,
        vec![(0, 590), (1, 160), (2, 590), (3, 590), (4, 160)]
    );
    assert_eq!(correction.unified_offset, 418);

    let empty = TesseractPageDetector::summarize_detections(vec![]);
    assert_eq!(empty.overall_confidence, 0);
    assert_eq!(empty.position_pattern, PageNumberPosition::BottomCenter);
    let nothing = TesseractPageDetector::calculate_offset(&empty, 1000).unwrap();
    assert!(nothing.page_offsets.is_empty());
    assert_eq!(nothing.unified_offset, 0);
}

#[test]
fn test_analyze_pattern_inside_and_center() {
    let inside = TesseractPageDetector::analyze_pattern(&[
        detection(0, Some(1), 100, 0.9),
        detection(1, Some(2), 800, 0.9),
    ]);
    assert_eq!(inside, (PageNumberPosition::BottomInside, 150, 850));
    let center = TesseractPageDetector::analyze_pattern(&[
        detection(0, Some(1), 449, 0.9),
        detection(1, Some(2), 400, 0.9),
    ]);
    assert_eq!(center, (PageNumberPosition::BottomCenter, 499, 450));
    let outside = TesseractPageDetector::analyze_pattern(&[
        detection(0, Some(1), 450, 0.9),
        detection(1, Some(2), 400, 0.9),
    ]);
    assert_eq!(outside, (PageNumberPosition::BottomOutside, 500, 450));
}

#[test]
fn test_search_band() {
    let bottom = PageNumberOptions::default();
    assert_eq!(TesseractPageDetector::search_band(1000, &bottom), (900, 100));
    let top = PageNumberOptions::builder()
        .position_hint(PageNumberPosition::TopCenter)
        .search_region_percent(12)
        .build();
    assert_eq!(TesseractPageDetector::search_band(1005, &top), (0, 120));
    let outer = PageNumberOptions::builder()
        .position_hint(PageNumberPosition::BottomOutside)
        .build();
    assert_eq!(TesseractPageDetector::search_band(0, &outer), (0, 0));
}

#[test]
fn test_read_page_number() {
    assert_eq!(TesseractPageDetector::read_page_number("42"), (Some(42), 95));
    assert_eq!(TesseractPageDetector::read_page_number(" 42 "), (Some(42), 95));
    assert_eq!(TesseractPageDetector::read_page_number("p. 42"), (Some(42), 70));
    assert_eq!(TesseractPageDetector::read_page_number("4 2"), (Some(42), 70));
    assert_eq!(TesseractPageDetector::read_page_number("9999"), (Some(9999), 95));
    assert_eq!(TesseractPageDetector::read_page_number("10000"), (None, 30));
    assert_eq!(TesseractPageDetector::read_page_number("99999999999999999999"), (None, 30));
    assert_eq!(TesseractPageDetector::read_page_number("000"), (None, 30));
    assert_eq!(TesseractPageDetector::read_page_number("abc"), (None, 0));
    assert_eq!(TesseractPageDetector::read_page_number(""), (None, 0));
}

#[test]
fn test_resolve_detection() {
    let options = PageNumberOptions::default();
    let kept = TesseractPageDetector::resolve_detection(
        3,
        (Some(42), 95),
        "42".to_string(),
        (900, 100),
        800,
        &options,
    );
    assert_eq!(kept.page_index, 3);
    assert_eq!(kept.number, Some(42));
    assert_eq!(kept.position, PageNumberRect { x: 0, y: 900, width: 800, height: 100 });
    assert_eq!(fraction(kept.confidence as u64), 0.95);
    assert_eq!(kept.raw_text, "42");
    let strict = PageNumberOptions::strict();
    let dropped = TesseractPageDetector::resolve_detection(
        3,
        (Some(42), 70),
        "p42".to_string(),
        (900, 100),
        800,
        &strict,
    );
    assert_eq!(dropped.number, None);
    assert_eq!(fraction(dropped.confidence as u64), 0.7);
}

#[test]
fn test_fallback_empty_candidates() {
    let candidates: Vec<PageNumberCandidate> = vec![];
    let region = Rectangle::new(0, 900, 1000, 100);
    let result = find_page_number_with_fallback(&candidates, 42, &region);
    assert!(result.is_none());
}

#[test]
fn test_fallback_stage1_exact_match() {
    let candidates = vec![
        PageNumberCandidate::new("42".to_string(), Rectangle::new(500, 950, 50, 30), millionths(0.95)),
        PageNumberCandidate::new("41".to_string(), Rectangle::new(100, 950, 50, 30), millionths(0.90)),
    ];
    let region = Rectangle::new(0, 900, 1000, 100);
    let result = find_page_number_with_fallback(&candidates, 42, &region);

    assert!(result.is_some());
    let m = result.unwrap();
    assert_eq!(m.stage, MatchStage::ExactMatch);
    assert_eq!(m.expected_number, 42);
    assert_eq!(m.candidate.number, Some(42));
}

#[test]
fn test_fallback_stage1_prefers_closer() {
    // Two exact matches, should prefer the closer one
    let candidates = vec![
        PageNumberCandidate::new("42".to_string(), Rectangle::new(100, 950, 50, 30), millionths(0.90)),
        PageNumberCandidate::new("42".to_string(), Rectangle::new(500, 950, 50, 30), millionths(0.95)),
    ];
    let region = Rectangle::new(400, 900, 200, 100); // Center at (500, 950)
    let result = find_page_number_with_fallback(&candidates, 42, &region);

    assert!(result.is_some());
    let m = result.unwrap();
    assert_eq!(m.stage, MatchStage::ExactMatch);
    // The one at (500, 950) should be closer to region center
    assert!(pixels(m.distance) < 100.0);
}

#[test]
fn test_fallback_stage2_similarity_match() {
    // No exact match, but similar text (123 is similar to 124)
    let candidates = vec![
        PageNumberCandidate::new("124".to_string(), Rectangle::new(500, 950, 50, 30), millionths(0.80)),
        PageNumberCandidate::new("abc".to_string(), Rectangle::new(100, 950, 50, 30), millionths(0.90)),
    ];
    let region = Rectangle::new(400, 900, 200, 100);
    let result = find_page_number_with_fallback(&candidates, 123, &region);

    assert!(result.is_some());
    let m = result.unwrap();
    assert_eq!(m.stage, MatchStage::SimilarityMatch);
    // "124" is similar to "123" (Jaro-Winkler ~0.93)
    assert!(m.score >= MIN_SIMILARITY_THRESHOLD);
}

#[test]
fn test_fallback_stage3_ocr_success() {
    // No exact or similar match, but OCR success
    let candidates = vec![
        PageNumberCandidate::new("xyz".to_string(), Rectangle::new(500, 950, 50, 30), millionths(0.80)),
    ];
    let region = Rectangle::new(0, 0, 100, 100); // Far from candidate
    let result = find_page_number_with_fallback(&candidates, 42, &region);

    assert!(result.is_some());
    let m = result.unwrap();
    assert_eq!(m.stage, MatchStage::OcrSuccessMatch);
}

#[test]
fn test_fallback_stage4_fallback() {
    // Only empty text candidates (no OCR success)
    let mut candidate = PageNumberCandidate::new(
        "".to_string(),
        Rectangle::new(500, 950, 50, 30),
        millionths(0.10),
    );
    candidate.ocr_success = false; // Force OCR failure
    let candidates = vec![candidate];
    let region = Rectangle::new(0, 0, 100, 100);
    let result = find_page_number_with_fallback(&candidates, 42, &region);

    assert!(result.is_some());
    let m = result.unwrap();
    assert_eq!(m.stage, MatchStage::FallbackMatch);
}

#[test]
fn test_fallback_stage_priority() {
    // Multiple candidates that would match different stages
    let candidates = vec![
        PageNumberCandidate::new("abc".to_string(), Rectangle::new(100, 950, 50, 30), millionths(0.80)),
        PageNumberCandidate::new("42".to_string(), Rectangle::new(500, 950, 50, 30), millionths(0.95)),
    ];
    let region = Rectangle::new(0, 900, 1000, 100);
    let result = find_page_number_with_fallback(&candidates, 42, &region);

    // Should match Stage 1 (exact) even though Stage 3 would also match
    assert!(result.is_some());
    assert_eq!(result.unwrap().stage, MatchStage::ExactMatch);
}

#[test]
fn test_fallback_batch_processing() {
    let page1_candidates = vec![PageNumberCandidate::new(
        "1".to_string(),
        Rectangle::new(500, 950, 50, 30),
        millionths(0.95),
    )];
    let page2_candidates = vec![PageNumberCandidate::new(
        "2".to_string(),
        Rectangle::new(500, 950, 50, 30),
        millionths(0.95),
    )];
    let page3_candidates = vec![]; // No candidates

    let all_candidates = vec![page1_candidates, page2_candidates, page3_candidates];
    let regions = vec![
        Rectangle::new(0, 900, 1000, 100),
        Rectangle::new(0, 900, 1000, 100),
        Rectangle::new(0, 900, 1000, 100),
    ];

    let results = find_page_numbers_batch(&all_candidates, 1, &regions);

    assert_eq!(results.len(), 3);
    assert!(results[0].is_some());
    assert!(results[1].is_some());
    assert!(results[2].is_none());
}

#[test]
fn test_fallback_stats() {
    let page1 = PageNumberCandidate::new("1".to_string(), Rectangle::new(500, 950, 50, 30), millionths(0.95));
    let page2 = PageNumberCandidate::new("2X".to_string(), Rectangle::new(500, 950, 50, 30), millionths(0.80));
    let page3 = PageNumberCandidate::new("abc".to_string(), Rectangle::new(500, 950, 50, 30), millionths(0.70));

    let all_candidates = vec![vec![page1], vec![page2], vec![page3], vec![]];
    let regions = vec![
        Rectangle::new(0, 900, 1000, 100),
        Rectangle::new(0, 900, 1000, 100),
        Rectangle::new(0, 900, 1000, 100),
        Rectangle::new(0, 900, 1000, 100),
    ];

    let results = find_page_numbers_batch(&all_candidates, 1, &regions);
    let stats = FallbackMatchStats::from_matches(&results);

    assert_eq!(stats.total, 4);
    assert_eq!(stats.stage1_exact, 1); // "1" matched exactly
    assert_eq!(stats.not_found, 1);    // Empty candidates
    assert!(fraction(stats.detection_rate()) > 0.5);
}

#[test]
fn test_fallback_region_expansion() {
    // Candidate just outside the strict region but within 3% margin
    let candidate = PageNumberCandidate::new(
        "42".to_string(),
        Rectangle::new(503, 953, 50, 30), // Slightly outside
        millionths(0.95),
    );
    let candidates = vec![candidate];
    // Region center at (500, 950), with expansion should include (503, 953)
    let region = Rectangle::new(400, 900, 200, 100);
    let result = find_page_number_with_fallback(&candidates, 42, &region);

    assert!(result.is_some());
    assert_eq!(result.unwrap().stage, MatchStage::ExactMatch);
}

#[test]
fn test_region_margin_decides_exact_match() {
    // The region (100, 0, 100, 100) grows by 3 pixels on each side. A box with
    // its center at (98, 50) lies in the grown region only.
    let region = Rectangle::new(100, 0, 100, 100);
    let inside = vec![PageNumberCandidate::new("9".to_string(), Rectangle::new(97, 49, 2, 2), 0)];
    let found = find_page_number_with_fallback(&inside, 9, &region).unwrap();
    assert_eq!(found.stage, MatchStage::ExactMatch);
    assert_eq!(found.score, millionths(1.0));
    // From (98, 50) to the region's center (150, 50).
    assert_eq!(found.distance, 52_000);
    // One pixel further left the candidate is outside, and the number alone
    // no longer counts; its text is still similar.
    let outside = vec![PageNumberCandidate::new("9".to_string(), Rectangle::new(95, 49, 2, 2), 0)];
    let found = find_page_number_with_fallback(&outside, 9, &region).unwrap();
    assert_eq!(found.stage, MatchStage::OcrSuccessMatch);
}

#[test]
fn test_exact_match_tie_goes_to_first() {
    let region = Rectangle::new(0, 0, 200, 200);
    let candidates = vec![
        PageNumberCandidate::new("5".to_string(), Rectangle::new(80, 100, 0, 0), 1),
        PageNumberCandidate::new("5".to_string(), Rectangle::new(120, 100, 0, 0), 2),
        PageNumberCandidate::new("5".to_string(), Rectangle::new(100, 90, 0, 0), 3),
    ];
    let found = find_page_number_with_fallback(&candidates, 5, &region).unwrap();
    assert_eq!(found.candidate.confidence, 3);
    assert_eq!(found.distance, 10_000);
    let tied = &candidates[..2];
    let found = find_page_number_with_fallback(tied, 5, &region).unwrap();
    assert_eq!(found.candidate.confidence, 1);
}

#[test]
fn test_similarity_scores_come_from_strsim() {
    let region = Rectangle::new(0, 0, 10, 10);
    let candidates = vec![
        PageNumberCandidate::new(" 124 ".to_string(), region, 0),
        PageNumberCandidate::new("123".to_string(), region, 0),
        PageNumberCandidate::new("xyz".to_string(), region, 0),
        PageNumberCandidate::new("".to_string(), region, 0),
    ];
    let scores = similarity_scores(&candidates, 123);
    assert_eq!(
        scores,
        vec![
            Some(bits(strsim::jaro_winkler("123", "124"))),
            Some(bits(1.0)),
            Some(bits(0.0)),
            None,
        ]
    );
    assert!((f64::from_bits(scores[0].unwrap()) - 0.8222).abs() < 0.0001);
}

#[test]
fn test_similarity_match_score_is_the_similarity() {
    let candidates = vec![
        PageNumberCandidate::new("124".to_string(), Rectangle::new(500, 950, 50, 30), millionths(0.80)),
        PageNumberCandidate::new("abc".to_string(), Rectangle::new(100, 950, 50, 30), millionths(0.90)),
    ];
    let region = Rectangle::new(400, 900, 200, 100);
    let m = find_page_number_with_fallback(&candidates, 123, &region).unwrap();
    assert_eq!(m.stage, MatchStage::SimilarityMatch);
    assert_eq!(m.score, millionths(strsim::jaro_winkler("123", "124")));
    assert_eq!(m.candidate.text, "124");
    assert_eq!(m.expected_number, 123);
}

#[test]
fn test_select_match_with_given_similarities() {
    let region = Rectangle::new(0, 0, 200, 200);
    let candidates = vec![
        PageNumberCandidate::new("a".to_string(), Rectangle::new(100, 100, 0, 0), 11),
        PageNumberCandidate::new("b".to_string(), Rectangle::new(50, 100, 0, 0), 22),
        PageNumberCandidate::new("c".to_string(), Rectangle::new(90, 100, 0, 0), 33),
        PageNumberCandidate::new(" ".to_string(), Rectangle::new(100, 100, 0, 0), 44),
    ];
    // The most similar wins, however far; a blank text has no similarity.
    let given = |values: [f64; 3]| -> Vec<Option<u64>> {
        let mut list: Vec<Option<u64>> = values.iter().map(|v| Some(bits(*v))).collect();
        list.push(None);
        list
    };
    let m = select_match(&candidates, &given([0.7, 0.9, 0.8]), 1, &region).unwrap();
    assert_eq!(m.stage, MatchStage::SimilarityMatch);
    assert_eq!(m.candidate.text, "b");
    assert_eq!(m.score, 900_000);
    assert_eq!(m.distance, 50_000);
    // Among equally similar ones the nearer wins.
    let m = select_match(&candidates, &given([0.6, 0.9, 0.9]), 1, &region).unwrap();
    assert_eq!(m.candidate.text, "c");
    // Seven tenths are enough, a little less is not.
    let m = select_match(&candidates, &given([0.7, 0.0, 0.0]), 1, &region).unwrap();
    assert_eq!(m.stage, MatchStage::SimilarityMatch);
    assert_eq!(m.score, 700_000);
    let below = vec![Some(bits(0.7) - 1), Some(0), Some(0), None];
    let m = select_match(&candidates, &below, 1, &region).unwrap();
    assert_eq!(m.stage, MatchStage::OcrSuccessMatch);
    assert_eq!(m.candidate.text, "a");
    assert_eq!(m.score, 11);
    // Similarities that are missing count as none.
    let m = select_match(&candidates, &[], 1, &region).unwrap();
    assert_eq!(m.stage, MatchStage::OcrSuccessMatch);
}

#[test]
fn test_each_stage_alone() {
    let region = Rectangle::new(0, 0, 200, 200);
    let mut silent = PageNumberCandidate::new("".to_string(), Rectangle::new(100, 100, 0, 0), 5);
    silent.ocr_success = false;
    let candidates = vec![
        silent,
        PageNumberCandidate::new("7".to_string(), Rectangle::new(90, 100, 0, 0), 6),
        PageNumberCandidate::new("x".to_string(), Rectangle::new(95, 100, 0, 0), 7),
    ];
    let similarities = vec![None, Some(bits(1.0)), Some(bits(0.75))];
    let stage_of = |m: Option<PageNumberMatch>| m.map(|m| (m.stage, m.candidate.confidence, m.score));
    assert_eq!(
        stage_of(stage1_exact_match(&candidates, &similarities, 7, &region, 100, 100)),
        Some((MatchStage::ExactMatch, 6, 1_000_000))
    );
    assert_eq!(stage_of(stage1_exact_match(&candidates, &similarities, 8, &region, 100, 100)), None);
    assert_eq!(
        stage_of(stage2_similarity_match(&candidates, &similarities, 8, &region, 100, 100)),
        Some((MatchStage::SimilarityMatch, 6, 1_000_000))
    );
    assert_eq!(
        stage_of(stage3_ocr_success_match(&candidates, &similarities, 8, &region, 100, 100)),
        Some((MatchStage::OcrSuccessMatch, 7, 7))
    );
    assert_eq!(
        stage_of(stage4_fallback_match(&candidates, &similarities, 8, &region, 100, 100)),
        Some((MatchStage::FallbackMatch, 5, 0))
    );
    let nobody: Vec<PageNumberCandidate> = vec![];
    assert_eq!(stage_of(stage4_fallback_match(&nobody, &[], 8, &region, 100, 100)), None);
}

#[test]
fn test_batch_numbers_pages_and_defaults_region() {
    // The second page has no region of its own and is searched in
    // (0, 0, 1000, 100).
    let pages = vec![
        vec![PageNumberCandidate::new("10".to_string(), Rectangle::new(0, 0, 10, 10), 0)],
        vec![PageNumberCandidate::new("11".to_string(), Rectangle::new(990, 90, 10, 10), 0)],
        vec![PageNumberCandidate::new("12".to_string(), Rectangle::new(2000, 90, 10, 10), 0)],
    ];
    let regions = vec![Rectangle::new(0, 0, 100, 100)];
    let results = find_page_numbers_batch(&pages, 10, &regions);
    let stages: Vec<MatchStage> = results.iter().map(|m| m.as_ref().unwrap().stage).collect();
    assert_eq!(
        stages,
        vec![MatchStage::ExactMatch, MatchStage::ExactMatch, MatchStage::OcrSuccessMatch]
    );
    assert_eq!(results[2].as_ref().unwrap().expected_number, 12);
    let alone = find_page_number_with_fallback(&pages[1], 11, &Rectangle::new(0, 0, 1000, 100));
    assert_eq!(alone.unwrap().distance, results[1].as_ref().unwrap().distance);
}

#[test]
fn test_stats_rates() {
    let empty = FallbackMatchStats::from_matches(&[]);
    assert_eq!(empty, FallbackMatchStats::default());
    assert_eq!(empty.detection_rate(), 0);
    assert_eq!(empty.high_confidence_rate(), 0);
    let stats = FallbackMatchStats {
        total: 8,
        stage1_exact: 3,
        stage2_similarity: 2,
        stage3_ocr_success: 1,
        stage4_fallback: 1,
        not_found: 1,
    };
    assert_eq!(stats.high_confidence_rate(), 625_000);
    assert_eq!(stats.detection_rate(), 875_000);
    let thirds = FallbackMatchStats { total: 3, stage1_exact: 1, not_found: 2, ..Default::default() };
    assert_eq!(thirds.detection_rate(), 333_333);
}
