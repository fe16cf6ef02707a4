use std::path::PathBuf;
use superbook_pdf::markdown_gen::{sanitize_filename, MarkdownGenerator};

#[test]
fn test_sanitize_filename() {
    assert_eq!(sanitize_filename("hello/world"), "hello_world");
    assert_eq!(sanitize_filename("test:file"), "test_file");
    assert_eq!(sanitize_filename("normal_file"), "normal_file");
    assert_eq!(sanitize_filename("日本語テスト"), "日本語テスト");
}

#[test]
fn test_sanitize_filename_japanese() {
    assert_eq!(sanitize_filename("日本語のタイトル"), "日本語のタイトル");
    assert_eq!(sanitize_filename("テスト/ブック"), "テスト_ブック");
}

#[test]
fn test_sanitize_filename_all_special_chars() {
    let input = r#"a/b\c:d*e?f"g<h>i|j"#;
    let result = sanitize_filename(input);
    assert!(!result.contains('/'));
    assert!(!result.contains('\\'));
    assert!(!result.contains(':'));
    assert!(!result.contains('*'));
    assert!(!result.contains('?'));
    assert!(!result.contains('"'));
    assert!(!result.contains('<'));
    assert!(!result.contains('>'));
    assert!(!result.contains('|'));
    assert_eq!(result, "a_b_c_d_e_f_g_h_i_j");
}

#[test]
fn test_sanitize_filename_empty_string() {
    // Empty string should produce empty result — not panic
    let result = sanitize_filename("");
    assert_eq!(result, "");
}

#[test]
fn test_sanitize_filename_empty() {
    let result = sanitize_filename("");
    assert_eq!(result, "", "Empty string should remain empty");
}

#[test]
fn test_sanitize_filename_all_special() {
    let result = sanitize_filename("/:*?\"<>|\\");
    assert!(
        !result.contains('/'),
        "Should not contain forward slash: {}",
        result
    );
    assert!(
        !result.contains('\\'),
        "Should not contain backslash: {}",
        result
    );
    assert!(
        !result.contains(':'),
        "Should not contain colon: {}",
        result
    );
    // All chars should be replaced with '_'
    assert_eq!(result, "_________");
}

#[test]
fn test_is_page_number_line() {
    assert!(MarkdownGenerator::is_page_number_line("028"));
    assert!(MarkdownGenerator::is_page_number_line("1"));
    assert!(MarkdownGenerator::is_page_number_line("300"));
    assert!(MarkdownGenerator::is_page_number_line("0034"));
    assert!(!MarkdownGenerator::is_page_number_line("12345"));
    assert!(!MarkdownGenerator::is_page_number_line("abc"));
    assert!(!MarkdownGenerator::is_page_number_line(""));
    assert!(!MarkdownGenerator::is_page_number_line("Hello 123"));
}

#[test]
fn test_is_page_number_line_trims() {
    assert!(MarkdownGenerator::is_page_number_line("  12\t\n"));
    assert!(!MarkdownGenerator::is_page_number_line("1 2"));
    assert!(!MarkdownGenerator::is_page_number_line("１２"));
    assert!(!MarkdownGenerator::is_page_number_line("   "));
}

#[test]
fn test_is_furigana_line() {
    assert!(MarkdownGenerator::is_furigana_line("さとみ ゆうすけ"));
    assert!(MarkdownGenerator::is_furigana_line("たなか たろう"));
    assert!(MarkdownGenerator::is_furigana_line("カタカナ テスト"));
    assert!(!MarkdownGenerator::is_furigana_line(
        "これは長い文章なので振り仮名ではないと判定されるべきです"
    ));
    assert!(!MarkdownGenerator::is_furigana_line("漢字テスト"));
    assert!(!MarkdownGenerator::is_furigana_line("hello"));
    assert!(!MarkdownGenerator::is_furigana_line("あ")); // too short
}

#[test]
fn test_is_furigana_line_limits() {
    // Fifteen characters are the most.
    assert!(MarkdownGenerator::is_furigana_line("あいうえおかき くけこさしすせ"));
    assert!(!MarkdownGenerator::is_furigana_line("あいうえおかき くけこさしすせそ"));
    // An ideographic space alone is no space between words, and is trimmed
    // at the ends.
    assert!(!MarkdownGenerator::is_furigana_line("さとみ\u{3000}ゆうすけ"));
    assert!(MarkdownGenerator::is_furigana_line("\u{3000}さとみ ゆうすけ\u{3000}"));
    assert!(!MarkdownGenerator::is_furigana_line(" さとみ "));
    assert!(!MarkdownGenerator::is_furigana_line("さとみ yu"));
}

#[test]
fn test_has_long_digit_run() {
    assert!(MarkdownGenerator::has_long_digit_run("ab444443cd", 5));
    assert!(MarkdownGenerator::has_long_digit_run("12345", 5));
    assert!(!MarkdownGenerator::has_long_digit_run("1234a5678", 5));
    assert!(!MarkdownGenerator::has_long_digit_run("", 5));
    assert!(MarkdownGenerator::has_long_digit_run("a1", 0));
    assert!(!MarkdownGenerator::has_long_digit_run("abc", 0));
    assert!(MarkdownGenerator::has_long_digit_run("x9", 1));
}

#[test]
fn test_is_noise_text() {
    // Short texts are never noise.
    assert!(!MarkdownGenerator::is_noise_text("1900"));
    assert!(!MarkdownGenerator::is_noise_text("1234567"));
    // More than six tenths digits and punctuation.
    assert!(MarkdownGenerator::is_noise_text("12345678"));
    assert!(MarkdownGenerator::is_noise_text("  4-9/7*3+abc  "));
    // Six of ten are not more than six tenths; without a run of five digits
    // the text stands.
    assert!(!MarkdownGenerator::is_noise_text("1a2b3c4d56"));
    assert!(!MarkdownGenerator::is_noise_text("12-34-abcd"));
    assert!(MarkdownGenerator::is_noise_text("12-34-ab-c"));
    // A run of five digits, and four characters of ten noisy ones besides.
    assert!(MarkdownGenerator::is_noise_text("abcdefg44444abc"));
    assert!(!MarkdownGenerator::is_noise_text("abcdefghijkl44444"));
    // Three bytes a character: three characters are long enough.
    assert!(!MarkdownGenerator::is_noise_text("日本語"));
    assert!(!MarkdownGenerator::is_noise_text("日本"));
    assert!(!MarkdownGenerator::is_noise_text("日1234"));
    assert!(MarkdownGenerator::is_noise_text("日12345"));
    assert!(!MarkdownGenerator::is_noise_text("これは本文です。"));
}

#[test]
fn test_generator_directories() {
    let generator = MarkdownGenerator::with_directories(
        PathBuf::from("/out"),
        PathBuf::from("/out/images"),
        PathBuf::from("/out/pages"),
    );
    assert_eq!(generator.output_dir(), &PathBuf::from("/out"));
    assert_eq!(generator.images_dir(), &PathBuf::from("/out/images"));
    assert_eq!(generator.pages_dir(), &PathBuf::from("/out/pages"));
}

#[test]
fn test_normalize_markdown_collapses_blank_lines() {
    let input = "line1\n\n\n\n\nline2\n\n\n\nline3";
    let result = MarkdownGenerator::normalize_markdown(input);
    // Should have at most one blank line between lines
    assert!(
        !result.contains("\n\n\n"),
        "Should not have triple newlines, got: {:?}",
        result
    );
    assert!(result.contains("line1"));
    assert!(result.contains("line2"));
    assert!(result.contains("line3"));
}

#[test]
fn test_normalize_removes_page_numbers() {
    let input = "028\nSome real text here\n";
    let result = MarkdownGenerator::normalize_markdown(input);
    assert!(!result.contains("028"));
    assert!(result.contains("Some real text"));
}

#[test]
fn test_normalize_converts_plus_headings() {
    let input = "Some intro text\n+衛星画像が暴く大量の死\nBody text\n";
    let result = MarkdownGenerator::normalize_markdown(input);
    assert!(result.contains("## 衛星画像が暴く大量の死"));
    assert!(!result.contains("+衛星画像"));
}

#[test]
fn test_normalize_removes_furigana() {
    let input = "里見祐介\nさとみ ゆうすけ\nSome text\n";
    let result = MarkdownGenerator::normalize_markdown(input);
    assert!(!result.contains("さとみ ゆうすけ"));
    assert!(result.contains("里見祐介"));
}

#[test]
fn test_normalize_removes_uppercase_noise() {
    let input = "OIL\nReal text here\n";
    let result = MarkdownGenerator::normalize_markdown(input);
    assert!(!result.contains("OIL"));
    assert!(result.contains("Real text"));
}

#[test]
fn test_normalize_markdown_exact_output() {
    let tidy = MarkdownGenerator::normalize_markdown;
    assert_eq!(tidy(""), "");
    assert_eq!(tidy("\n\n"), "\n");
    // Blank lines leave no more than the end of the line before them.
    assert_eq!(tidy("line1\n\n\n\n\nline2\n\n\n\nline3"), "line1\nline2\nline3\n");
    assert_eq!(tidy("\n\nline1\n"), "\nline1\n");
    assert_eq!(tidy("  first  \r\nsecond\r\n"), "first\nsecond\n");
    // A page number goes before the first content only.
    assert_eq!(tidy("028\nSome real text here\n300\n"), "Some real text here\n300\n");
    // A heading stands after a blank line.
    assert_eq!(
        tidy("Some intro text\n+衛星画像が暴く大量の死\nBody text\n"),
        "Some intro text\n\n## 衛星画像が暴く大量の死\nBody text\n"
    );
    assert_eq!(tidy("+Title here\ntext of it"), "## Title here\ntext of it\n");
    // A plus sign with one byte behind it is no heading, and short noise.
    assert_eq!(tidy("intro text\n+x\nbody text\n"), "intro text\nbody text\n");
    // A line that repeats the line before it goes, and so does a line that
    // begins with it or with which it begins.
    assert_eq!(tidy("same line\nsame line\nsame line again\nsame\nother\n"), "same line\nsame\nother\n");
    // Short lines: digits and words of ASCII stay, stray characters go.
    assert_eq!(tidy("text one\n12\nab\nめ\nm。\nx\n---\n\u{3042}\n"), "text one\n12\nab\n---\n");
    // Capitals of five letters at most go.
    assert_eq!(tidy("Real text here\nFTSCX\nFTSCXY\nOIL\n"), "Real text here\nFTSCXY\n");
    // A heading that is left out still makes a blank line.
    assert_eq!(tidy("## title x\n+title x\nmore words\n"), "## title x\n\nmore words\n");
}

#[test]
fn test_strip_trailing_noise() {
    let strip = MarkdownGenerator::strip_trailing_noise;
    // A token of punctuation behind the last space goes.
    assert_eq!(strip("はじめに \""), "はじめに");
    assert_eq!(strip("abc  x"), "abc");
    assert_eq!(strip("text 12"), "text");
    assert_eq!(strip("end ・・"), "end");
    // Two characters that carry meaning stay, and so does a particle.
    assert_eq!(strip("をめぐって m。"), "をめぐって m。");
    assert_eq!(strip("text の"), "text の");
    assert_eq!(strip("a word"), "a word");
    assert_eq!(strip("text "), "text ");
    // Marks at the end go where they take six bytes or more.
    assert_eq!(strip("end。。"), "end");
    assert_eq!(strip("end 。。"), "end");
    assert_eq!(strip("end。"), "end。");
    assert_eq!(strip("end..."), "end...");
    assert_eq!(strip("end......"), "end");
    assert_eq!(strip("end。·."), "end");
    assert_eq!(strip(""), "");
    assert_eq!(strip("。。"), "");
}

#[test]
fn test_clean_block_text() {
    assert_eq!(MarkdownGenerator::clean_block_text("  はじめに \"  "), "はじめに");
    assert_eq!(MarkdownGenerator::clean_block_text("\n本文。。\n"), "本文");
    assert_eq!(MarkdownGenerator::clean_block_text("  plain text  "), "plain text");
    assert_eq!(MarkdownGenerator::clean_block_text("   "), "");
}
