use superbook_pdf::markdown_gen::MarkdownGenerator;
use superbook_pdf::text_blocks::{TextBlock, TextDirection};

/// A confidence from 0 to 1 or a font size in points, counted in millionths.
fn millionths(value: f64) -> u32 {
    (value * 1_000_000.0).round() as u32
}


#[test]
fn test_sort_text_blocks_vertical() {
    let blocks = vec![
        TextBlock {
            text: "左列".into(),
            bbox: (100, 0, 50, 500),
            confidence: millionths(0.9),
            direction: TextDirection::Vertical,
            font_size: Some(millionths(12.0)),
        },
        TextBlock {
            text: "右列".into(),
            bbox: (500, 0, 50, 500),
            confidence: millionths(0.9),
            direction: TextDirection::Vertical,
            font_size: Some(millionths(12.0)),
        },
    ];

    let sorted = MarkdownGenerator::sort_text_blocks(&blocks, &TextDirection::Vertical);
    assert_eq!(sorted[0].text, "右列"); // Right column first
    assert_eq!(sorted[1].text, "左列"); // Left column second
}

#[test]
fn test_sort_text_blocks_horizontal() {
    let blocks = vec![
        TextBlock {
            text: "下行".into(),
            bbox: (0, 500, 200, 50),
            confidence: millionths(0.9),
            direction: TextDirection::Horizontal,
            font_size: Some(millionths(12.0)),
        },
        TextBlock {
            text: "上行".into(),
            bbox: (0, 100, 200, 50),
            confidence: millionths(0.9),
            direction: TextDirection::Horizontal,
            font_size: Some(millionths(12.0)),
        },
    ];

    let sorted = MarkdownGenerator::sort_text_blocks(&blocks, &TextDirection::Horizontal);
    assert_eq!(sorted[0].text, "上行");
    assert_eq!(sorted[1].text, "下行");
}

#[test]
fn test_sort_text_blocks_same_position() {
    // Blocks at the same Y should be sorted by X (for horizontal)
    let blocks = vec![
        TextBlock {
            text: "右".into(),
            bbox: (300, 100, 50, 50),
            confidence: millionths(0.9),
            direction: TextDirection::Horizontal,
            font_size: Some(millionths(12.0)),
        },
        TextBlock {
            text: "左".into(),
            bbox: (100, 100, 50, 50),
            confidence: millionths(0.9),
            direction: TextDirection::Horizontal,
            font_size: Some(millionths(12.0)),
        },
    ];

    let sorted = MarkdownGenerator::sort_text_blocks(&blocks, &TextDirection::Horizontal);
    assert_eq!(sorted[0].text, "左");
    assert_eq!(sorted[1].text, "右");
}

#[test]
fn test_sort_text_blocks_mixed_direction() {
    // Mixed direction should use horizontal sorting (top-to-bottom, left-to-right)
    let blocks = vec![
        TextBlock {
            text: "下".into(),
            bbox: (0, 500, 100, 50),
            confidence: millionths(0.9),
            direction: TextDirection::Mixed,
            font_size: Some(millionths(12.0)),
        },
        TextBlock {
            text: "上".into(),
            bbox: (0, 100, 100, 50),
            confidence: millionths(0.9),
            direction: TextDirection::Mixed,
            font_size: Some(millionths(12.0)),
        },
    ];

    let sorted = MarkdownGenerator::sort_text_blocks(&blocks, &TextDirection::Mixed);
    assert_eq!(sorted[0].text, "上");
    assert_eq!(sorted[1].text, "下");
}

#[test]
fn test_sort_text_blocks_empty() {
    let sorted = MarkdownGenerator::sort_text_blocks(&[], &TextDirection::Horizontal);
    assert!(sorted.is_empty(), "Empty input should produce empty output");
}

#[test]
fn test_sort_text_blocks_single_block() {
    let blocks = vec![TextBlock {
        text: "唯一".into(),
        bbox: (10, 20, 100, 50),
        confidence: millionths(0.95),
        direction: TextDirection::Horizontal,
        font_size: Some(millionths(12.0)),
    }];
    let sorted = MarkdownGenerator::sort_text_blocks(&blocks, &TextDirection::Horizontal);
    assert_eq!(sorted.len(), 1);
    assert_eq!(sorted[0].text, "唯一");
}

#[test]
fn test_filter_low_confidence() {
    let blocks = vec![
        TextBlock {
            text: "高信頼".into(),
            bbox: (0, 0, 100, 30),
            confidence: millionths(0.9),
            direction: TextDirection::Horizontal,
            font_size: Some(millionths(12.0)),
        },
        TextBlock {
            text: "低信頼ノイズ".into(),
            bbox: (0, 50, 100, 30),
            confidence: millionths(0.1),
            direction: TextDirection::Horizontal,
            font_size: Some(millionths(12.0)),
        },
        TextBlock {
            text: "中信頼".into(),
            bbox: (0, 100, 100, 30),
            confidence: millionths(0.5),
            direction: TextDirection::Horizontal,
            font_size: Some(millionths(12.0)),
        },
        TextBlock {
            text: "境界値".into(),
            bbox: (0, 150, 100, 30),
            confidence: millionths(0.3),
            direction: TextDirection::Horizontal,
            font_size: Some(millionths(12.0)),
        },
    ];

    let filtered = MarkdownGenerator::filter_low_confidence(&blocks);
    assert_eq!(filtered.len(), 3, "Should filter out confidence < 0.3");
    assert_eq!(filtered[0].text, "高信頼");
    assert_eq!(filtered[1].text, "中信頼");
    assert_eq!(filtered[2].text, "境界値");
}

#[test]
fn test_heading_detection_by_font_size() {
    // Median of [12, 12, 12, 16, 24] = 12.0
    // 24.0 / 12.0 = 2.0 >= 1.4 → ## heading
    // 16.0 / 12.0 = 1.33 >= 1.2 → ### sub-heading
    let blocks = vec![
        TextBlock {
            text: "大見出し".into(),
            bbox: (0, 0, 400, 50),
            confidence: millionths(0.9),
            direction: TextDirection::Horizontal,
            font_size: Some(millionths(24.0)),
        },
        TextBlock {
            text: "本文テキスト".into(),
            bbox: (0, 100, 400, 30),
            confidence: millionths(0.9),
            direction: TextDirection::Horizontal,
            font_size: Some(millionths(12.0)),
        },
        TextBlock {
            text: "もう一つの本文".into(),
            bbox: (0, 150, 400, 30),
            confidence: millionths(0.9),
            direction: TextDirection::Horizontal,
            font_size: Some(millionths(12.0)),
        },
        TextBlock {
            text: "さらに本文".into(),
            bbox: (0, 200, 400, 30),
            confidence: millionths(0.9),
            direction: TextDirection::Horizontal,
            font_size: Some(millionths(12.0)),
        },
        TextBlock {
            text: "小見出し".into(),
            bbox: (0, 300, 400, 35),
            confidence: millionths(0.9),
            direction: TextDirection::Horizontal,
            font_size: Some(millionths(16.0)), // 16/12 = 1.33 >= 1.2 → sub-heading
        },
    ];

    let text = MarkdownGenerator::build_structured_text(&blocks, &TextDirection::Horizontal);
    assert!(
        text.contains("## 大見出し"),
        "Large font should become ## heading, got: {}",
        text
    );
    assert!(
        text.contains("### 小見出し"),
        "Medium-large font should become ### sub-heading, got: {}",
        text
    );
    assert!(
        !text.contains("## 本文テキスト"),
        "Body text should NOT be a heading"
    );
}

#[test]
fn test_paragraph_gap_detection() {
    let blocks = vec![
        TextBlock {
            text: "段落1の行".into(),
            bbox: (0, 0, 400, 30),
            confidence: millionths(0.9),
            direction: TextDirection::Horizontal,
            font_size: Some(millionths(12.0)),
        },
        TextBlock {
            text: "段落1の続き".into(),
            bbox: (0, 35, 400, 30),
            confidence: millionths(0.9),
            direction: TextDirection::Horizontal,
            font_size: Some(millionths(12.0)),
        },
        TextBlock {
            text: "段落2（大きなギャップの後）".into(),
            bbox: (0, 150, 400, 30), // gap = 150 - 65 = 85 >> 30*1.5 = 45
            confidence: millionths(0.9),
            direction: TextDirection::Horizontal,
            font_size: Some(millionths(12.0)),
        },
    ];

    let text = MarkdownGenerator::build_structured_text(&blocks, &TextDirection::Horizontal);
    // There should be a double newline (paragraph break) before "段落2"
    assert!(
        text.contains("\n\n"),
        "Should contain paragraph break (double newline), got: {:?}",
        text
    );
}

#[test]
fn test_low_confidence_blocks_excluded_from_output() {
    let blocks = vec![
        TextBlock {
            text: "正常テキスト".into(),
            bbox: (0, 0, 200, 30),
            confidence: millionths(0.9),
            direction: TextDirection::Horizontal,
            font_size: Some(millionths(12.0)),
        },
        TextBlock {
            text: "ゴミOCRノイズ##@!".into(),
            bbox: (0, 50, 200, 30),
            confidence: millionths(0.05),
            direction: TextDirection::Horizontal,
            font_size: Some(millionths(12.0)),
        },
    ];

    let text = MarkdownGenerator::build_structured_text(&blocks, &TextDirection::Horizontal);
    assert!(
        text.contains("正常テキスト"),
        "High-confidence text should be included"
    );
    assert!(
        !text.contains("ゴミOCRノイズ"),
        "Low-confidence noise should be excluded"
    );
}

#[test]
fn test_median_font_size() {
    let blocks = vec![
        TextBlock {
            text: "a".into(),
            bbox: (0, 0, 10, 10),
            confidence: millionths(0.9),
            direction: TextDirection::Horizontal,
            font_size: Some(millionths(10.0)),
        },
        TextBlock {
            text: "b".into(),
            bbox: (0, 0, 10, 10),
            confidence: millionths(0.9),
            direction: TextDirection::Horizontal,
            font_size: Some(millionths(12.0)),
        },
        TextBlock {
            text: "c".into(),
            bbox: (0, 0, 10, 10),
            confidence: millionths(0.9),
            direction: TextDirection::Horizontal,
            font_size: Some(millionths(24.0)),
        },
    ];

    let median = MarkdownGenerator::median_font_size(&blocks);
    assert_eq!(median, Some(millionths(12.0)), "Median of [10, 12, 24] should be 12");
}

#[test]
fn test_median_font_size_no_sizes() {
    let blocks = vec![TextBlock {
        text: "no size".into(),
        bbox: (0, 0, 10, 10),
        confidence: millionths(0.9),
        direction: TextDirection::Horizontal,
        font_size: None,
    }];

    assert_eq!(
        MarkdownGenerator::median_font_size(&blocks),
        None,
        "No font sizes should return None"
    );
}

#[test]
fn test_all_low_confidence_produces_empty() {
    let blocks = vec![
        TextBlock {
            text: "noise1".into(),
            bbox: (0, 0, 100, 30),
            confidence: millionths(0.1),
            direction: TextDirection::Horizontal,
            font_size: Some(millionths(12.0)),
        },
        TextBlock {
            text: "noise2".into(),
            bbox: (0, 50, 100, 30),
            confidence: millionths(0.2),
            direction: TextDirection::Horizontal,
            font_size: Some(millionths(12.0)),
        },
    ];

    let text = MarkdownGenerator::build_structured_text(&blocks, &TextDirection::Horizontal);
    assert!(
        text.is_empty(),
        "All low-confidence blocks should produce empty text, got: '{}'",
        text
    );
}

fn block(text: &str, bbox: (u32, u32, u32, u32), confidence: f64, font_size: Option<f64>) -> TextBlock {
    TextBlock {
        text: text.to_string(),
        bbox,
        confidence: millionths(confidence),
        direction: TextDirection::Horizontal,
        font_size: font_size.map(millionths),
    }
}

fn texts(blocks: &[TextBlock]) -> Vec<&str> {
    blocks.iter().map(|b| b.text.as_str()).collect()
}

#[test]
fn test_reading_order_exact() {
    let blocks = vec![
        block("a", (100, 50, 10, 10), 0.9, None),
        block("b", (500, 90, 10, 10), 0.9, None),
        block("c", (500, 10, 10, 10), 0.9, None),
        block("d", (100, 50, 10, 10), 0.9, None),
        block("e", (0, 50, 10, 10), 0.9, None),
    ];
    let rows = MarkdownGenerator::sort_text_blocks(&blocks, &TextDirection::Horizontal);
    assert_eq!(texts(&rows), vec!["c", "e", "a", "d", "b"]);
    let columns = MarkdownGenerator::sort_text_blocks(&blocks, &TextDirection::Vertical);
    assert_eq!(texts(&columns), vec!["c", "b", "a", "d", "e"]);
    let mixed = MarkdownGenerator::sort_text_blocks(&blocks, &TextDirection::Mixed);
    assert_eq!(texts(&mixed), vec!["c", "e", "a", "d", "b"]);
    let edge = vec![
        block("far", (u32::MAX, u32::MAX, 1, 1), 0.9, None),
        block("near", (0, 0, 1, 1), 0.9, None),
    ];
    assert_eq!(texts(&MarkdownGenerator::sort_text_blocks(&edge, &TextDirection::Horizontal)), vec!["near", "far"]);
    assert_eq!(texts(&MarkdownGenerator::sort_text_blocks(&edge, &TextDirection::Vertical)), vec!["far", "near"]);
}

#[test]
fn test_filter_cleans_and_drops() {
    let blocks = vec![
        block("  はじめに \"  ", (0, 0, 10, 10), 0.9, Some(12.0)),
        block("12345678", (0, 0, 10, 10), 0.9, None),
        block("   ", (0, 0, 10, 10), 0.9, None),
        block("。。", (0, 0, 10, 10), 0.9, None),
        block("keep me", (1, 2, 3, 4), 0.3, None),
        block("drop me", (0, 0, 10, 10), 0.299999, None),
    ];
    let kept = MarkdownGenerator::filter_low_confidence(&blocks);
    assert_eq!(texts(&kept), vec!["はじめに", "keep me"]);
    assert_eq!(kept[0].font_size, Some(millionths(12.0)));
    assert_eq!(kept[1].bbox, (1, 2, 3, 4));
    assert_eq!(kept[1].confidence, millionths(0.3));
}

#[test]
fn test_medians() {
    let blocks = vec![
        block("a", (0, 0, 10, 30), 0.9, Some(10.0)),
        block("b", (0, 0, 10, 0), 0.9, Some(0.0)),
        block("c", (0, 0, 10, 41), 0.9, Some(13.0)),
        block("d", (0, 0, 10, 35), 0.9, None),
        block("e", (0, 0, 10, 10), 0.9, Some(24.0)),
        block("f", (0, 0, 10, 50), 0.9, Some(12.0)),
    ];
    // Sizes 10, 12, 13, 24: the mean of 12 and 13.
    assert_eq!(MarkdownGenerator::median_font_size(&blocks), Some(millionths(12.5)));
    // Heights 10, 30, 35, 41, 50: the middle one, in thousandths.
    assert_eq!(MarkdownGenerator::median_line_height(&blocks), 35_000);
    // Heights 30, 41: the mean of the two.
    assert_eq!(MarkdownGenerator::median_line_height(&blocks[..3]), 35_500);
    assert_eq!(MarkdownGenerator::median_line_height(&blocks[1..2]), 20_000);
    assert_eq!(MarkdownGenerator::median_line_height(&[]), 20_000);
    assert_eq!(MarkdownGenerator::median_font_size(&blocks[1..2]), None);
}

#[test]
fn test_heading_level_thresholds() {
    let level = |size: f64| {
        MarkdownGenerator::heading_level(&block("x", (0, 0, 1, 1), 0.9, Some(size)), millionths(10.0))
    };
    assert_eq!(level(14.0), Some(2));
    assert_eq!(level(13.999999), Some(3));
    assert_eq!(level(12.0), Some(3));
    assert_eq!(level(11.999999), None);
    assert_eq!(
        MarkdownGenerator::heading_level(&block("x", (0, 0, 1, 1), 0.9, None), millionths(10.0)),
        None
    );
}

#[test]
fn test_paragraph_gap_threshold() {
    let first = block("a", (0, 0, 400, 30), 0.9, None);
    let gap = |top: u32| {
        MarkdownGenerator::is_paragraph_gap(&first, &block("b", (0, top, 400, 30), 0.9, None), 30_000)
    };
    // The first block ends at 30; a gap of more than 45 ends the paragraph.
    assert!(!gap(75));
    assert!(gap(76));
    assert!(!gap(30));
    assert!(!gap(10));
}

#[test]
fn test_structured_text_exact() {
    let blocks = vec![
        block("小見出し", (0, 300, 400, 35), 0.9, Some(16.0)),
        block("本文テキスト ", (0, 100, 400, 30), 0.9, Some(12.0)),
        block("大見出し", (0, 0, 400, 50), 0.9, Some(24.0)),
        block("もう一つの本文", (0, 150, 400, 30), 0.9, Some(12.0)),
        block("ゴミOCRノイズ##@!", (0, 170, 400, 30), 0.05, Some(12.0)),
        block("さらに本文", (0, 200, 400, 30), 0.9, Some(12.0)),
    ];
    let text = MarkdownGenerator::build_structured_text(&blocks, &TextDirection::Horizontal);
    // The gap before the first body line is 50 and before the sub-heading
    // 70, against a median height of 30.
    assert_eq!(
        text,
        "## 大見出し\n\n本文テキスト\nもう一つの本文\nさらに本文\n\n### 小見出し"
    );
    assert_eq!(MarkdownGenerator::sort_and_join_text_blocks(&blocks, &TextDirection::Horizontal), text);
    assert_eq!(MarkdownGenerator::build_structured_text(&[], &TextDirection::Vertical), "");
    let sorted = MarkdownGenerator::sort_text_blocks(&blocks[..4], &TextDirection::Horizontal);
    let plain = MarkdownGenerator::format_block_group(&sorted, None, 1_000_000);
    assert_eq!(plain, "大見出し\n本文テキスト\nもう一つの本文\n小見出し");
}
