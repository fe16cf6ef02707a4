use superbook_pdf::page_number::overlap::{
    calc_average_center as average_center_of, keep_supported, share, smallest_boxes,
};
use superbook_pdf::page_number::{
    calc_average_center, calc_group_reference_position, calc_intersection_center,
    calc_overlap_center, BookOffsetAnalysis, DetectedPageNumber, PageNumberRect,
    PageOffsetAnalyzer, PageOffsetResult, Point, Rectangle,
};

/// A number from 0 to 1 and beyond, counted in millionths.
fn millionths(value: f64) -> u32 {
    (value * 1_000_000.0).round() as u32
}

/// A count of millionths as a number.
fn fraction(millionths: u32) -> f64 {
    millionths as f64 / 1_000_000.0
}

#[test]
fn test_page_offset_result_no_offset() {
    let result = PageOffsetResult::no_offset(5);
    assert_eq!(result.physical_page, 5);
    assert_eq!(result.logical_page, None);
    assert_eq!(result.shift_x, 0);
    assert_eq!(result.shift_y, 0);
    assert!(result.is_odd);
}

#[test]
fn test_page_offset_result_even_page() {
    let result = PageOffsetResult::no_offset(6);
    assert!(!result.is_odd);
}

#[test]
fn test_book_offset_analysis_default() {
    let analysis = BookOffsetAnalysis::default();
    assert_eq!(analysis.page_number_shift, 0);
    assert!(analysis.page_offsets.is_empty());
    assert_eq!(analysis.match_count, 0);
    assert_eq!(fraction(analysis.confidence), 0.0);
}

#[test]
fn test_book_offset_analysis_reliability() {
    let mut analysis = BookOffsetAnalysis::default();

    // Not reliable with 0 matches
    assert!(!analysis.is_reliable(100));

    // Not reliable with only 4 matches (need at least 5)
    analysis.match_count = 4;
    assert!(!analysis.is_reliable(100));

    // Not reliable if less than 1/3 of pages matched
    analysis.match_count = 5;
    assert!(!analysis.is_reliable(100)); // 5 < 100/3

    // Reliable with enough matches
    analysis.match_count = 40;
    assert!(analysis.is_reliable(100)); // 40 >= 100/3
}

#[test]
fn test_reliability_thresholds() {
    let mut analysis = BookOffsetAnalysis::default();
    analysis.match_count = 4;
    assert!(!analysis.is_reliable(1));
    analysis.match_count = 5;
    assert!(analysis.is_reliable(15));
    assert!(!analysis.is_reliable(16));
    analysis.match_count = usize::MAX;
    assert!(analysis.is_reliable(usize::MAX));
}

#[test]
fn test_analyze_empty_detections() {
    let detections: Vec<DetectedPageNumber> = vec![];
    let analysis = PageOffsetAnalyzer::analyze_offsets(&detections, 7000);
    assert_eq!(analysis.page_number_shift, 0);
    assert!(analysis.page_offsets.is_empty());
}

#[test]
fn test_interpolate_missing_offsets() {
    let mut analysis = BookOffsetAnalysis {
        page_offsets: vec![
            PageOffsetResult::no_offset(1),
            PageOffsetResult::no_offset(3),
            PageOffsetResult::no_offset(5),
        ],
        ..Default::default()
    };

    PageOffsetAnalyzer::interpolate_missing_offsets(&mut analysis, 5);

    assert_eq!(analysis.page_offsets.len(), 5);
    assert_eq!(analysis.page_offsets[0].physical_page, 1);
    assert_eq!(analysis.page_offsets[1].physical_page, 2);
    assert_eq!(analysis.page_offsets[2].physical_page, 3);
    assert_eq!(analysis.page_offsets[3].physical_page, 4);
    assert_eq!(analysis.page_offsets[4].physical_page, 5);
}

#[test]
fn test_interpolation_adds_stubs_and_sorts() {
    let kept = PageOffsetResult {
        physical_page: 3,
        logical_page: Some(1),
        shift_x: 4,
        shift_y: -2,
        page_number_position: Some(PageNumberRect { x: 1, y: 2, width: 3, height: 4 }),
        is_odd: true,
    };
    let mut analysis = BookOffsetAnalysis {
        page_offsets: vec![PageOffsetResult::no_offset(5), kept, PageOffsetResult::no_offset(1)],
        page_number_shift: 2,
        match_count: 7,
        ..Default::default()
    };
    PageOffsetAnalyzer::interpolate_missing_offsets(&mut analysis, 5);
    assert_eq!(
        analysis.page_offsets,
        vec![
            PageOffsetResult::no_offset(1),
            PageOffsetResult::no_offset(2),
            kept,
            PageOffsetResult::no_offset(4),
            PageOffsetResult::no_offset(5),
        ]
    );
    assert_eq!(analysis.page_number_shift, 2);
    assert_eq!(analysis.match_count, 7);
    // A page beyond the book stays, and entries of one page keep their order.
    let mut long = BookOffsetAnalysis {
        page_offsets: vec![PageOffsetResult::no_offset(9), kept, PageOffsetResult::no_offset(3)],
        ..Default::default()
    };
    PageOffsetAnalyzer::interpolate_missing_offsets(&mut long, 2);
    let pages: Vec<usize> = long.page_offsets.iter().map(|p| p.physical_page).collect();
    assert_eq!(pages, vec![1, 2, 3, 3, 9]);
    assert_eq!(long.page_offsets[2], kept);
    let mut none = BookOffsetAnalysis::default();
    PageOffsetAnalyzer::interpolate_missing_offsets(&mut none, 0);
    assert!(none.page_offsets.is_empty());
}

#[test]
fn test_get_offset() {
    let analysis = BookOffsetAnalysis {
        page_offsets: vec![
            PageOffsetResult::no_offset(1),
            PageOffsetResult::no_offset(2),
            PageOffsetResult::no_offset(3),
        ],
        ..Default::default()
    };

    let offset = analysis.get_offset(2);
    assert!(offset.is_some());
    assert_eq!(offset.unwrap().physical_page, 2);

    let missing = analysis.get_offset(99);
    assert!(missing.is_none());
}

// Sequential page numbers: the shift is computed exactly
#[test]
fn test_tc_pagenum_001_sequential_page_numbers() {
    // Simulate consecutive page numbers detected
    let detections = vec![
        DetectedPageNumber {
            page_index: 0,
            number: Some(1),
            position: PageNumberRect {
                x: 500,
                y: 100,
                width: 50,
                height: 20,
            },
            confidence: millionths(0.9),
            raw_text: "1".to_string(),
        },
        DetectedPageNumber {
            page_index: 1,
            number: Some(2),
            position: PageNumberRect {
                x: 500,
                y: 100,
                width: 50,
                height: 20,
            },
            confidence: millionths(0.9),
            raw_text: "2".to_string(),
        },
        DetectedPageNumber {
            page_index: 2,
            number: Some(3),
            position: PageNumberRect {
                x: 500,
                y: 100,
                width: 50,
                height: 20,
            },
            confidence: millionths(0.9),
            raw_text: "3".to_string(),
        },
    ];

    let analysis = PageOffsetAnalyzer::analyze_offsets(&detections, 1000);

    // Sequential pages should have shift of 0
    assert_eq!(analysis.page_number_shift, 0);
    // All pages should be in offsets
    assert_eq!(analysis.page_offsets.len(), 3);
}

// Missing page numbers are filled in
#[test]
fn test_tc_pagenum_002_missing_page_interpolation() {
    let mut analysis = BookOffsetAnalysis {
        page_offsets: vec![
            PageOffsetResult {
                physical_page: 1,
                logical_page: Some(1),
                shift_x: 10,
                shift_y: 5,
                page_number_position: Some(PageNumberRect {
                    x: 100,
                    y: 50,
                    width: 30,
                    height: 20,
                }),
                is_odd: true,
            },
            // Page 2 is missing
            PageOffsetResult {
                physical_page: 3,
                logical_page: Some(3),
                shift_x: 10,
                shift_y: 5,
                page_number_position: Some(PageNumberRect {
                    x: 100,
                    y: 50,
                    width: 30,
                    height: 20,
                }),
                is_odd: true,
            },
        ],
        page_number_shift: 0,
        odd_avg_x: Some(100),
        even_avg_x: Some(900),
        odd_avg_y: Some(50),
        even_avg_y: Some(50),
        match_count: 2,
        confidence: millionths(0.8),
    };

    PageOffsetAnalyzer::interpolate_missing_offsets(&mut analysis, 3);

    // After interpolation, page 2 should be present
    assert_eq!(analysis.page_offsets.len(), 3);
    let page2 = analysis.get_offset(2);
    assert!(page2.is_some());
}

// Decorative numbers: the printed number may differ from the physical one
#[test]
fn test_tc_pagenum_003_decorative_numbers() {
    // Test that logical page numbers can differ from physical
    let result = PageOffsetResult {
        physical_page: 5,
        logical_page: Some(1), // Book starts at page 5 but logical is 1
        shift_x: 0,
        shift_y: 0,
        page_number_position: None,
        is_odd: true,
    };

    assert_eq!(result.physical_page, 5);
    assert_eq!(result.logical_page, Some(1));
}

// Roman numerals are skipped
#[test]
fn test_tc_pagenum_004_roman_numerals_skipped() {
    // Pages with None logical_page represent non-Arabic numerals
    let result = PageOffsetResult {
        physical_page: 1,
        logical_page: None, // Roman numeral, skipped
        shift_x: 0,
        shift_y: 0,
        page_number_position: None,
        is_odd: true,
    };

    assert!(result.logical_page.is_none());

    // Verify no_offset creates proper structure
    let no_offset = PageOffsetResult::no_offset(2);
    assert_eq!(no_offset.shift_x, 0);
    assert_eq!(no_offset.shift_y, 0);
}

// Odd and even pages have their own offsets
#[test]
fn test_tc_pagenum_005_odd_even_separate_offsets() {
    // Odd pages have different position than even pages
    let detections = vec![
        DetectedPageNumber {
            page_index: 0,
            number: Some(1),
            position: PageNumberRect {
                x: 100,
                y: 50,
                width: 50,
                height: 20,
            }, // Odd: left
            confidence: millionths(0.9),
            raw_text: "1".to_string(),
        },
        DetectedPageNumber {
            page_index: 1,
            number: Some(2),
            position: PageNumberRect {
                x: 900,
                y: 50,
                width: 50,
                height: 20,
            }, // Even: right
            confidence: millionths(0.9),
            raw_text: "2".to_string(),
        },
        DetectedPageNumber {
            page_index: 2,
            number: Some(3),
            position: PageNumberRect {
                x: 105,
                y: 52,
                width: 50,
                height: 20,
            }, // Odd: left
            confidence: millionths(0.9),
            raw_text: "3".to_string(),
        },
        DetectedPageNumber {
            page_index: 3,
            number: Some(4),
            position: PageNumberRect {
                x: 895,
                y: 48,
                width: 50,
                height: 20,
            }, // Even: right
            confidence: millionths(0.9),
            raw_text: "4".to_string(),
        },
    ];

    let analysis = PageOffsetAnalyzer::analyze_offsets(&detections, 1000);

    // Should detect shift correctly
    assert!(!analysis.page_offsets.is_empty());
    // Odd and even pages should have different X offsets potentially
    // The actual test verifies the structure supports this
}

#[test]
fn test_calc_overlap_center_empty() {
    let bboxes: Vec<Rectangle> = vec![];
    let center = calc_overlap_center(&bboxes);
    assert_eq!(center, Point::default());
}

#[test]
fn test_calc_overlap_center_single() {
    let bboxes = vec![Rectangle::new(100, 200, 50, 30)];
    let center = calc_overlap_center(&bboxes);
    // Center of (100, 200, 50, 30) = (125, 215)
    assert_eq!(center.x, 125);
    assert_eq!(center.y, 215);
}

#[test]
fn test_calc_overlap_center_identical() {
    // Multiple identical bboxes should return the same center
    let bboxes = vec![
        Rectangle::new(100, 200, 50, 30),
        Rectangle::new(100, 200, 50, 30),
        Rectangle::new(100, 200, 50, 30),
    ];
    let center = calc_overlap_center(&bboxes);
    // After 3% expansion, center should still be around (125, 215)
    assert!((center.x - 125).abs() <= 5);
    assert!((center.y - 215).abs() <= 5);
}

#[test]
fn test_calc_overlap_center_overlapping() {
    // Bboxes that overlap - should find intersection center
    let bboxes = vec![
        Rectangle::new(100, 100, 100, 100), // Center: (150, 150)
        Rectangle::new(110, 110, 100, 100), // Center: (160, 160)
        Rectangle::new(120, 120, 100, 100), // Center: (170, 170)
    ];
    let center = calc_overlap_center(&bboxes);
    // Should be in the overlap region
    assert!(center.x >= 100 && center.x <= 220);
    assert!(center.y >= 100 && center.y <= 220);
}

#[test]
fn test_calc_overlap_center_scattered() {
    // Bboxes that don't fully overlap
    // When no bbox meets the 70% containment threshold,
    // algorithm falls back to using all bboxes and selects smallest 30%
    let bboxes = vec![
        Rectangle::new(0, 0, 50, 50),
        Rectangle::new(100, 0, 50, 50),
        Rectangle::new(200, 0, 50, 50),
    ];
    let center = calc_overlap_center(&bboxes);
    // All bboxes have same area, so takes first one (after sorting)
    // Center of (0, 0, 50, 50) = (25, 25)
    // But with 3% expansion, it might select different subset
    // Just verify it returns a valid point within the range of inputs
    assert!(center.x >= 0 && center.x <= 250);
    assert!(center.y >= 0 && center.y <= 50);
}

#[test]
fn test_calc_overlap_center_exact_values() {
    // Identical boxes have their own center.
    let same = vec![Rectangle::new(100, 200, 50, 30); 3];
    assert_eq!(calc_overlap_center(&same), Point::new(125, 215));
    // Scattered boxes of one area: none is supported by 3 of 3, all are
    // kept, and the first alone decides.
    let scattered = vec![
        Rectangle::new(0, 0, 50, 50),
        Rectangle::new(100, 0, 50, 50),
        Rectangle::new(200, 0, 50, 50),
    ];
    assert_eq!(calc_overlap_center(&scattered), Point::new(25, 25));
    // Three overlapping boxes of one area: the first alone decides.
    let overlapping = vec![
        Rectangle::new(100, 100, 100, 100),
        Rectangle::new(110, 110, 100, 100),
        Rectangle::new(120, 120, 100, 100),
    ];
    assert_eq!(calc_overlap_center(&overlapping), Point::new(150, 150));
    // Four boxes: two decide. The two smallest grow to (98, 98, 54, 54) and
    // (119, 119, 64, 64), which share (119, 119, 33, 33).
    let four = vec![
        Rectangle::new(100, 100, 100, 100),
        Rectangle::new(120, 120, 62, 62),
        Rectangle::new(99, 99, 52, 52),
        Rectangle::new(90, 90, 120, 120),
    ];
    assert_eq!(calc_overlap_center(&four), Point::new(135, 135));
}

#[test]
fn test_overlap_center_steps() {
    assert_eq!(share(70, 10), 7);
    assert_eq!(share(70, 3), 3);
    assert_eq!(share(30, 4), 2);
    assert_eq!(share(30, 3), 1);
    assert_eq!(share(30, 0), 0);
    // Of five boxes four touch; the far one has the support of one box in
    // five and is dropped, the others have that of four.
    let boxes = vec![
        Rectangle::new(0, 0, 10, 10),
        Rectangle::new(5, 5, 10, 10),
        Rectangle::new(1000, 1000, 10, 10),
        Rectangle::new(2, 2, 10, 10),
        Rectangle::new(3, 3, 4, 4),
    ];
    let kept = keep_supported(&boxes);
    assert_eq!(kept, vec![boxes[0], boxes[1], boxes[3], boxes[4]]);
    // Of four kept boxes the two smallest decide, equal areas in their order.
    assert_eq!(smallest_boxes(&kept), vec![boxes[4], boxes[0]]);
    assert_eq!(smallest_boxes(&boxes[..1]), vec![boxes[0]]);
}

#[test]
fn test_calc_group_reference_odd_pages() {
    let positions = vec![
        (
            1,
            PageNumberRect {
                x: 100,
                y: 900,
                width: 50,
                height: 30,
            },
        ),
        (
            2,
            PageNumberRect {
                x: 850,
                y: 900,
                width: 50,
                height: 30,
            },
        ),
        (
            3,
            PageNumberRect {
                x: 105,
                y: 905,
                width: 50,
                height: 30,
            },
        ),
        (
            4,
            PageNumberRect {
                x: 845,
                y: 895,
                width: 50,
                height: 30,
            },
        ),
        (
            5,
            PageNumberRect {
                x: 102,
                y: 902,
                width: 50,
                height: 30,
            },
        ),
    ];

    let odd_center = calc_group_reference_position(&positions, true);
    let even_center = calc_group_reference_position(&positions, false);

    // Odd pages (1, 3, 5) are on the left (~100-105)
    // Even pages (2, 4) are on the right (~845-850)
    assert!(odd_center.x < 200);
    assert!(even_center.x > 800);
}

#[test]
fn test_calc_intersection_center_no_overlap() {
    // When there's no overlap, should fall back to average
    let r1 = Rectangle::new(0, 0, 10, 10);
    let r2 = Rectangle::new(100, 100, 10, 10);
    let bboxes: Vec<Rectangle> = vec![r1, r2];
    let center = calc_intersection_center(&bboxes);
    // Average of (5, 5) and (105, 105) = (55, 55)
    assert_eq!(center.x, 55);
    assert_eq!(center.y, 55);
}

#[test]
fn test_calc_intersection_center_of_shared_region() {
    let boxes = vec![
        Rectangle::new(0, 0, 100, 100),
        Rectangle::new(50, 20, 100, 100),
        Rectangle::new(40, 40, 30, 100),
    ];
    // The three share (50, 40, 20, 60).
    assert_eq!(calc_intersection_center(&boxes), Point::new(60, 70));
    assert_eq!(calc_intersection_center(&[]), Point::default());
    assert_eq!(calc_intersection_center(&boxes[1..2]), Point::new(100, 70));
}

#[test]
fn test_calc_average_center() {
    let r1 = Rectangle::new(0, 0, 100, 100);
    let r2 = Rectangle::new(100, 0, 100, 100);
    let r3 = Rectangle::new(200, 0, 100, 100);
    let bboxes: Vec<Rectangle> = vec![r1, r2, r3];
    let center = calc_average_center(&bboxes);
    // Centers: (50, 50), (150, 50), (250, 50) -> avg (150, 50)
    assert_eq!(center.x, 150);
    assert_eq!(center.y, 50);
}

#[test]
fn test_average_center_rounds_toward_zero() {
    let boxes = vec![Rectangle::new(-4, -7, 0, 0), Rectangle::new(1, 2, 0, 0)];
    // The sums are -3 and -5.
    assert_eq!(average_center_of(&boxes), Point::new(-1, -2));
    assert_eq!(average_center_of(&[]), Point::default());
    let extreme = vec![Rectangle::new(i32::MAX, i32::MIN, 0, 0); 4];
    assert_eq!(average_center_of(&extreme), Point::new(i32::MAX, i32::MIN));
}

#[test]
fn test_phase2_2_spec_c_sharp_compatibility() {
    // Given page number positions from a real book scan,
    // the algorithm should find a stable reference point

    // Simulate odd pages (right side of book, page numbers on outer edge)
    let odd_bboxes = vec![
        Rectangle::new(900, 1000, 60, 40),
        Rectangle::new(895, 1005, 65, 38),
        Rectangle::new(902, 998, 58, 42),
        Rectangle::new(898, 1002, 62, 40),
        Rectangle::new(901, 1001, 60, 39),
    ];

    let center = calc_overlap_center(&odd_bboxes);

    // Should be approximately at the center of the cluster
    // X should be around 900-930 (right side)
    // Y should be around 1000-1020 (bottom area)
    assert!(
        center.x >= 880 && center.x <= 950,
        "X={} not in expected range",
        center.x
    );
    assert!(
        center.y >= 980 && center.y <= 1050,
        "Y={} not in expected range",
        center.y
    );

    // Verify reference point is within tolerance of the expected output
    let expected_x = 915; // Approximate expected
    let expected_y = 1020; // Approximate expected
    assert!((center.x - expected_x).abs() <= 20, "X deviation too large");
    assert!((center.y - expected_y).abs() <= 20, "Y deviation too large");
}

fn numbered(page_index: usize, number: Option<i32>, x: u32, y: u32, confidence: u32) -> DetectedPageNumber {
    DetectedPageNumber {
        page_index,
        number,
        position: PageNumberRect { x, y, width: 40, height: 20 },
        confidence,
        raw_text: String::new(),
    }
}

#[test]
fn test_best_shift_and_confidence() {
    // Front matter of two pages: page index 2 carries number 1.
    let detections: Vec<DetectedPageNumber> = (0..8)
        .map(|i| numbered(i, if i >= 2 { Some(i as i32 - 1) } else { None }, 0, 0, millionths(80.0)))
        .collect();
    let (shift, count, confidence) = PageOffsetAnalyzer::find_best_page_number_shift(&detections);
    assert_eq!(shift, 2);
    assert_eq!(count, 6);
    // 6 * 80 / (8 * 100)
    assert_eq!(fraction(confidence), 0.6);
    assert_eq!(PageOffsetAnalyzer::find_best_page_number_shift(&[]), (0, 0, 0));
}

#[test]
fn test_best_shift_ties() {
    // Page index 4 carrying 7 speaks for shift -2, page index 9 carrying 8
    // for shift 2: equal scores, equal size, the negative shift stands.
    let opposite = vec![numbered(4, Some(7), 0, 0, 50), numbered(9, Some(8), 0, 0, 50)];
    assert_eq!(PageOffsetAnalyzer::find_best_page_number_shift(&opposite).0, -2);
    // Shift 1 and shift -5 with equal scores: the smaller shift stands.
    let unequal = vec![numbered(4, Some(4), 0, 0, 50), numbered(9, Some(15), 0, 0, 50)];
    assert_eq!(PageOffsetAnalyzer::find_best_page_number_shift(&unequal).0, 1);
    // The higher score stands against the smaller shift.
    let heavier = vec![numbered(4, Some(4), 0, 0, 50), numbered(9, Some(15), 0, 0, 51)];
    assert_eq!(PageOffsetAnalyzer::find_best_page_number_shift(&heavier), (-5, 1, 0));
    // Shifts from -300 to 299 are tried: 300 is not.
    let far = vec![numbered(300, Some(1), 0, 0, 50)];
    assert_eq!(PageOffsetAnalyzer::find_best_page_number_shift(&far), (0, 0, 0));
    let near = vec![numbered(299, Some(1), 0, 0, 50), numbered(0, Some(301), 0, 0, 50)];
    assert_eq!(PageOffsetAnalyzer::find_best_page_number_shift(&near).0, 299);
    assert_eq!(PageOffsetAnalyzer::find_best_page_number_shift(&near[1..]), (-300, 1, 0));
    assert_eq!(PageOffsetAnalyzer::find_best_page_number_shift(&near[..1]).0, 299);
    // A number below 1 agrees with no shift.
    let zero = vec![numbered(0, Some(0), 0, 0, 50)];
    assert_eq!(PageOffsetAnalyzer::find_best_page_number_shift(&zero), (0, 0, 0));
}

#[test]
fn test_analyze_offsets_of_a_book() {
    // Ten pages, numbered from the third on; odd pages carry the number on
    // the left, even pages on the right; page index 5 was misread.
    let detections: Vec<DetectedPageNumber> = (0..10usize)
        .map(|i| {
            let number = if i == 5 {
                Some(77)
            } else if i >= 2 {
                Some(i as i32 - 1)
            } else {
                None
            };
            let odd = (i + 1) % 2 == 1;
            let x = if odd { 100 + i as u32 } else { 900 - i as u32 };
            numbered(i, number, x, 1000 + (i % 2) as u32 * 10, millionths(90.0))
        })
        .collect();
    let analysis = PageOffsetAnalyzer::analyze_offsets(&detections, 1200);
    assert_eq!(analysis.page_number_shift, 2);
    assert_eq!(analysis.match_count, 7);
    // 7 * 90 / (10 * 100)
    assert_eq!(fraction(analysis.confidence), 0.63);
    assert!(analysis.is_reliable(10));
    assert_eq!(analysis.page_offsets.len(), 10);
    // Odd pages matched: 3, 5, 7, 9 at x = 102, 104, 106, 108, y = 1000.
    // Two of the four grown boxes decide: (101, 1000, 42, 20) and
    // (103, 1000, 42, 20) share (103, 1000, 40, 20).
    assert_eq!(analysis.odd_avg_x, Some(123));
    // Even pages matched: 4, 8, 10 at x = 897, 893, 891, y = 1010; the first
    // alone decides.
    assert_eq!(analysis.even_avg_x, Some(917));
    // The vertical references 1010 and 1020 differ by less than 350.
    assert_eq!(analysis.odd_avg_y, Some(1015));
    assert_eq!(analysis.even_avg_y, Some(1015));
    let first = analysis.get_offset(1).unwrap();
    assert_eq!(*first, PageOffsetResult::no_offset(1));
    let misread = analysis.get_offset(6).unwrap();
    assert_eq!(*misread, PageOffsetResult::no_offset(6));
    let third = analysis.get_offset(3).unwrap();
    assert_eq!(
        *third,
        PageOffsetResult {
            physical_page: 3,
            logical_page: Some(1),
            shift_x: 1,
            shift_y: 5,
            page_number_position: Some(PageNumberRect { x: 102, y: 1000, width: 40, height: 20 }),
            is_odd: true,
        }
    );
    let tenth = analysis.get_offset(10).unwrap();
    assert_eq!(tenth.logical_page, Some(8));
    assert_eq!((tenth.shift_x, tenth.shift_y), (6, -5));
    assert!(!tenth.is_odd);
    // Every page counted as matching carries the number that the shift
    // predicts.
    let carrying = analysis.page_offsets.iter().filter(|p| p.logical_page.is_some()).count();
    assert_eq!(carrying, analysis.match_count);
    for (entry, detection) in analysis.page_offsets.iter().zip(&detections) {
        if let Some(logical) = entry.logical_page {
            assert_eq!(entry.physical_page as i32 - analysis.page_number_shift, logical);
            assert_eq!(detection.number, Some(logical));
        }
    }
    let copy = analysis.clone();
    assert_eq!(copy.page_offsets, analysis.page_offsets);
}

#[test]
fn test_analyze_offsets_without_enough_matches() {
    // Four matching pages are too few.
    let few: Vec<DetectedPageNumber> =
        (0..4).map(|i| numbered(i, Some(i as i32 + 1), 10, 10, millionths(90.0))).collect();
    let analysis = PageOffsetAnalyzer::analyze_offsets(&few, 1000);
    assert_eq!(analysis.page_number_shift, 0);
    assert_eq!(analysis.match_count, 0);
    assert_eq!(analysis.confidence, 0);
    assert_eq!(analysis.odd_avg_x, None);
    assert_eq!(analysis.even_avg_y, None);
    assert_eq!(
        analysis.page_offsets,
        vec![
            PageOffsetResult::no_offset(1),
            PageOffsetResult::no_offset(2),
            PageOffsetResult::no_offset(3),
            PageOffsetResult::no_offset(4),
        ]
    );
    // Five matching pages of sixteen are less than a third.
    let sparse: Vec<DetectedPageNumber> = (0..16)
        .map(|i| numbered(i, if i < 5 { Some(i as i32 + 4) } else { None }, 10, 10, 1))
        .collect();
    let analysis = PageOffsetAnalyzer::analyze_offsets(&sparse, 1000);
    assert_eq!(analysis.match_count, 0);
    assert_eq!(analysis.page_number_shift, 0);
    // Five of fifteen are enough.
    let analysis = PageOffsetAnalyzer::analyze_offsets(&sparse[..15], 1000);
    assert_eq!(analysis.match_count, 5);
    assert_eq!(analysis.page_number_shift, -3);
}

#[test]
fn test_align_group_y_values() {
    let align = PageOffsetAnalyzer::align_group_y_values;
    assert_eq!(align(Some(100), Some(449)), (Some(274), Some(274)));
    assert_eq!(align(Some(100), Some(450)), (Some(100), Some(450)));
    assert_eq!(align(Some(-3), Some(0)), (Some(-1), Some(-1)));
    assert_eq!(align(Some(7), None), (Some(7), None));
    assert_eq!(align(None, Some(7)), (None, Some(7)));
    assert_eq!(align(None, None), (None, None));
    assert_eq!(align(Some(i32::MAX), Some(i32::MIN)), (Some(i32::MAX), Some(i32::MIN)));
    assert_eq!(align(Some(i32::MAX), Some(i32::MAX - 1)), (Some(i32::MAX - 1), Some(i32::MAX - 1)));
}
