use superbook_pdf::figure_detect::{FigureDetector, FigureRegion, PageClassification, RegionType};

#[test]
fn test_regions_overlap() {
    let a = FigureRegion {
        bbox: (0, 0, 100, 100),
        area: 10000,
        region_type: RegionType::Figure,
    };
    let b = FigureRegion {
        bbox: (50, 50, 100, 100),
        area: 10000,
        region_type: RegionType::Figure,
    };
    assert!(FigureDetector::regions_overlap(&a, &b));

    let c = FigureRegion {
        bbox: (200, 200, 100, 100),
        area: 10000,
        region_type: RegionType::Figure,
    };
    assert!(!FigureDetector::regions_overlap(&a, &c));
}

fn figure(x: u32, y: u32, w: u32, h: u32) -> FigureRegion {
    FigureRegion { bbox: (x, y, w, h), area: w * h, region_type: RegionType::Figure }
}

#[test]
fn test_regions_touching_do_not_overlap() {
    assert!(!FigureDetector::regions_overlap(&figure(0, 0, 100, 100), &figure(100, 0, 50, 50)));
    assert!(FigureDetector::regions_overlap(&figure(0, 0, 100, 100), &figure(99, 99, 50, 50)));
    let far = FigureRegion {
        bbox: (u32::MAX, u32::MAX, u32::MAX, u32::MAX),
        area: 0,
        region_type: RegionType::Cover,
    };
    assert!(FigureDetector::regions_overlap(&far, &far));
}

#[test]
fn test_merge_overlapping() {
    let mut regions = vec![
        figure(0, 0, 100, 100),
        figure(500, 500, 10, 10),
        figure(50, 50, 100, 100),
        figure(140, 140, 20, 20),
    ];
    FigureDetector::merge_overlapping(&mut regions);
    assert_eq!(regions, vec![figure(0, 0, 160, 160), figure(500, 500, 10, 10)]);
    // A merge can make regions overlap that did not: the second pass merges
    // them.
    let mut chain = vec![figure(0, 0, 10, 10), figure(18, 0, 10, 40), figure(5, 30, 10, 10), figure(8, 5, 12, 3)];
    FigureDetector::merge_overlapping(&mut chain);
    assert_eq!(chain, vec![figure(0, 0, 28, 40)]);
    let mut apart = vec![figure(0, 0, 10, 10), figure(10, 0, 10, 10)];
    FigureDetector::merge_overlapping(&mut apart);
    assert_eq!(apart, vec![figure(0, 0, 10, 10), figure(10, 0, 10, 10)]);
    let mut none: Vec<FigureRegion> = vec![];
    FigureDetector::merge_overlapping(&mut none);
    assert!(none.is_empty());
}

#[test]
fn test_merged_region_is_a_figure_with_limited_area() {
    let cover = FigureRegion { bbox: (0, 0, 70_000, 70_000), area: 1, region_type: RegionType::Cover };
    let merged = FigureDetector::merge_pair(&cover, &figure(10, 10, 5, 5));
    assert_eq!(merged.region_type, RegionType::Figure);
    assert_eq!(merged.bbox, (0, 0, 70_000, 70_000));
    assert_eq!(merged.area, u32::MAX);
}

#[test]
fn test_calculate_text_area() {
    let boxes = vec![(50, 50, 900, 1350), (900, 1400, 200, 200), (2000, 0, 10, 10)];
    // The second box is cut to 100 by 100, the third lies outside.
    assert_eq!(FigureDetector::calculate_text_area(&boxes, 1000, 1500), 900 * 1350 + 100 * 100);
    assert_eq!(FigureDetector::calculate_text_area(&[], 1000, 1500), 0);
}

#[test]
fn test_page_classification_clone() {
    let mixed = PageClassification::Mixed { figures: vec![figure(1, 2, 3, 4)] };
    match mixed.clone() {
        PageClassification::Mixed { figures } => assert_eq!(figures, vec![figure(1, 2, 3, 4)]),
        _ => panic!("a mixed page stays mixed"),
    }
    assert!(matches!(PageClassification::Cover.clone(), PageClassification::Cover));
    assert!(matches!(PageClassification::TextOnly.clone(), PageClassification::TextOnly));
}
