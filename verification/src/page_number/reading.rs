//! What is made of the numbers once they are read: Roman numerals, the
//! numbers that a book lacks or repeats, the order of the numbers, the
//! pattern of their positions, and the rules by which one recognised text
//! becomes the detection of a page.

use vstd::prelude::*;
use std::path::PathBuf;
use crate::numeric::{clamp_u32, div_toward_zero, divide_toward_zero};
use crate::page_number::types::{
    DetectedPageNumber, OffsetCorrection, PageNumberAnalysis, PageNumberError, PageNumberOptions,
    PageNumberPosition, PageNumberRect,
};
use crate::text::{
    begins_with, chars_of, decimal_value, is_digit, lowercase_of, to_lowercase, trim_bounds,
    trimmed, trimmed_chars,
};

verus! {

/// The number of the symbols of Roman numerals.
pub const NUMERAL_SYMBOLS: usize = 13;

/// The symbols of Roman numerals, the largest first.
pub open spec fn numeral_symbol(k: int) -> Seq<char> {
    if k == 0 {
        seq!['m']
    } else if k == 1 {
        seq!['c', 'm']
    } else if k == 2 {
        seq!['d']
    } else if k == 3 {
        seq!['c', 'd']
    } else if k == 4 {
        seq!['c']
    } else if k == 5 {
        seq!['x', 'c']
    } else if k == 6 {
        seq!['l']
    } else if k == 7 {
        seq!['x', 'l']
    } else if k == 8 {
        seq!['x']
    } else if k == 9 {
        seq!['i', 'x']
    } else if k == 10 {
        seq!['v']
    } else if k == 11 {
        seq!['i', 'v']
    } else {
        seq!['i']
    }
}

/// The values of the symbols of Roman numerals.
pub open spec fn numeral_value(k: int) -> int {
    if k == 0 {
        1000
    } else if k == 1 {
        900
    } else if k == 2 {
        500
    } else if k == 3 {
        400
    } else if k == 4 {
        100
    } else if k == 5 {
        90
    } else if k == 6 {
        50
    } else if k == 7 {
        40
    } else if k == 8 {
        10
    } else if k == 9 {
        9
    } else if k == 10 {
        5
    } else if k == 11 {
        4
    } else {
        1
    }
}

/// Reads Roman symbols from the front of `s`, beginning with symbol `k`:
/// each symbol as often as it stands there, then the next smaller one.
/// Gives the sum of the values read and what is left of `s`.
pub open spec fn read_numerals(s: Seq<char>, k: int) -> (int, Seq<char>)
    decreases NUMERAL_SYMBOLS - k, s.len(),
{
    if k < 0 || k >= NUMERAL_SYMBOLS {
        (0, s)
    } else if begins_with(s, numeral_symbol(k)) {
        let rest = read_numerals(s.skip(numeral_symbol(k).len() as int), k);
        (numeral_value(k) + rest.0, rest.1)
    } else {
        read_numerals(s, k + 1)
    }
}

/// The number that a Roman numeral writes: the text is put in lowercase and
/// trimmed, and then read as Roman symbols in small letters.
pub open spec fn roman_number(text: Seq<char>) -> Option<i32> {
    roman_value(trimmed(lowercase_of(text)))
}

/// The number that Roman symbols in small letters write: symbols are read
/// from the front, each as often as it stands there. Nothing where
/// something is left over, where no symbol was read, or where the sum does
/// not fit in 32 bits.
pub open spec fn roman_value(s: Seq<char>) -> Option<i32> {
    let read = read_numerals(s, 0);
    if read.1.len() == 0 && 0 < read.0 <= i32::MAX {
        Some(read.0 as i32)
    } else {
        None
    }
}

/// The sum of the values read is not negative, and grows with each symbol.
pub proof fn lemma_read_numerals_nonnegative(s: Seq<char>, k: int)
    ensures
        read_numerals(s, k).0 >= 0,
    decreases NUMERAL_SYMBOLS - k, s.len(),
{
    if 0 <= k < NUMERAL_SYMBOLS {
        if begins_with(s, numeral_symbol(k)) {
            lemma_read_numerals_nonnegative(s.skip(numeral_symbol(k).len() as int), k);
        } else {
            lemma_read_numerals_nonnegative(s, k + 1);
        }
    }
}

/// The first character of symbol `k`, its second character if it has two,
/// and its value.
fn symbol_parts(k: usize) -> (parts: (char, Option<char>, i64))
    requires
        k < NUMERAL_SYMBOLS,
    ensures
        parts.2 == numeral_value(k as int),
        1 <= parts.2 <= 1000,
        match parts.1 {
            Some(second) => numeral_symbol(k as int) == seq![parts.0, second],
            None => numeral_symbol(k as int) == seq![parts.0],
        },
{
    if k == 0 {
        ('m', None, 1000)
    } else if k == 1 {
        ('c', Some('m'), 900)
    } else if k == 2 {
        ('d', None, 500)
    } else if k == 3 {
        ('c', Some('d'), 400)
    } else if k == 4 {
        ('c', None, 100)
    } else if k == 5 {
        ('x', Some('c'), 90)
    } else if k == 6 {
        ('l', None, 50)
    } else if k == 7 {
        ('x', Some('l'), 40)
    } else if k == 8 {
        ('x', None, 10)
    } else if k == 9 {
        ('i', Some('x'), 9)
    } else if k == 10 {
        ('v', None, 5)
    } else if k == 11 {
        ('i', Some('v'), 4)
    } else {
        ('i', None, 1)
    }
}

/// The numbers that were detected, in the order of the pages.
pub open spec fn detected_numbers(detections: Seq<DetectedPageNumber>) -> Seq<i32>
    decreases detections.len(),
{
    if detections.len() == 0 {
        Seq::empty()
    } else {
        match detections.last().number {
            Some(n) => detected_numbers(detections.drop_last()).push(n),
            None => detected_numbers(detections.drop_last()),
        }
    }
}

/// Whether each number is larger than the one before it.
pub open spec fn strictly_ascending(numbers: Seq<i32>) -> bool {
    forall|i: int| 1 <= i < numbers.len() ==> numbers[i - 1] < #[trigger] numbers[i]
}

/// Whether `n` is one of the numbers.
pub open spec fn occurs(numbers: Seq<i32>, n: int) -> bool {
    exists|i: int| 0 <= i < numbers.len() && #[trigger] numbers[i] == n
}

/// Whether `low` is the smallest of the numbers.
pub open spec fn is_least(numbers: Seq<i32>, low: int) -> bool {
    occurs(numbers, low) && forall|i: int| 0 <= i < numbers.len() ==> low <= #[trigger] numbers[i]
}

/// Whether `high` is the largest of the numbers.
pub open spec fn is_greatest(numbers: Seq<i32>, high: int) -> bool {
    occurs(numbers, high) && forall|i: int|
        0 <= i < numbers.len() ==> #[trigger] numbers[i] <= high
}

/// The offsets below `count` from `low` at which no number stands, in
/// ascending order.
pub open spec fn missing_offsets(numbers: Seq<i32>, low: int, count: nat) -> Seq<usize>
    decreases count,
{
    if count == 0 {
        Seq::empty()
    } else if occurs(numbers, low + count - 1) {
        missing_offsets(numbers, low, (count - 1) as nat)
    } else {
        missing_offsets(numbers, low, (count - 1) as nat).push((count - 1) as usize)
    }
}

/// Those of the numbers that stand earlier in the list as well, in their
/// order.
pub open spec fn repeated_numbers(numbers: Seq<i32>) -> Seq<i32>
    decreases numbers.len(),
{
    if numbers.len() == 0 {
        Seq::empty()
    } else if occurs(numbers.drop_last(), numbers.last() as int) {
        repeated_numbers(numbers.drop_last()).push(numbers.last())
    } else {
        repeated_numbers(numbers.drop_last())
    }
}

/// Whether a page number counts as odd: it is positive and odd.
pub open spec fn counts_as_odd(n: i32) -> bool {
    n > 0 && n % 2 == 1
}

/// The horizontal centers of the detections whose number has the given
/// parity, in the order of the pages.
pub open spec fn parity_centers(detections: Seq<DetectedPageNumber>, odd: bool) -> Seq<i32>
    decreases detections.len(),
{
    if detections.len() == 0 {
        Seq::empty()
    } else {
        match detections.last().number {
            Some(n) => if counts_as_odd(n) == odd {
                parity_centers(detections.drop_last(), odd).push(
                    detections.last().position.spec_to_rectangle().spec_center().0,
                )
            } else {
                parity_centers(detections.drop_last(), odd)
            },
            None => parity_centers(detections.drop_last(), odd),
        }
    }
}

/// The sum of the values.
pub open spec fn sum_of(values: Seq<i32>) -> int
    decreases values.len(),
{
    if values.len() == 0 {
        0
    } else {
        sum_of(values.drop_last()) + values.last()
    }
}

/// The mean of the values, rounded toward zero; 0 for no values.
pub open spec fn mean_of(values: Seq<i32>) -> int {
    if values.len() == 0 {
        0
    } else {
        div_toward_zero(sum_of(values), values.len() as int)
    }
}

/// The pattern that two mean positions show: the center where they differ by
/// less than 50 pixels, the outside where the odd pages lie further right,
/// and else the inside.
pub open spec fn pattern_of(odd_mean: int, even_mean: int) -> PageNumberPosition {
    if -50 < odd_mean - even_mean < 50 {
        PageNumberPosition::BottomCenter
    } else if odd_mean > even_mean {
        PageNumberPosition::BottomOutside
    } else {
        PageNumberPosition::BottomInside
    }
}

/// For each detection with a number, its position in the list and the
/// offset of its parity.
pub open spec fn offsets_by_parity(
    detections: Seq<DetectedPageNumber>,
    odd_offset: i32,
    even_offset: i32,
) -> Seq<(usize, i32)>
    decreases detections.len(),
{
    if detections.len() == 0 {
        Seq::empty()
    } else {
        let before = offsets_by_parity(detections.drop_last(), odd_offset, even_offset);
        match detections.last().number {
            Some(n) => before.push(
                (
                    (detections.len() - 1) as usize,
                    if counts_as_odd(n) {
                        odd_offset
                    } else {
                        even_offset
                    },
                ),
            ),
            None => before,
        }
    }
}

/// The offsets alone.
pub open spec fn offset_values(page_offsets: Seq<(usize, i32)>) -> Seq<i32> {
    Seq::new(page_offsets.len(), |i: int| page_offsets[i].1)
}

/// A sum of values of 32 bits lies between the smallest and the largest
/// such sum.
pub proof fn lemma_sum_bounded(values: Seq<i32>)
    ensures
        values.len() * (i32::MIN as int) <= sum_of(values) <= values.len() * (i32::MAX as int),
    decreases values.len(),
{
    if values.len() > 0 {
        lemma_sum_bounded(values.drop_last());
        let n = values.len() as int;
        assert((n - 1) * (i32::MIN as int) + (i32::MIN as int) == n * (i32::MIN as int))
            by (nonlinear_arith);
        assert((n - 1) * (i32::MAX as int) + (i32::MAX as int) == n * (i32::MAX as int))
            by (nonlinear_arith);
    }
}

/// A mean of values of 32 bits has 32 bits.
pub proof fn lemma_mean_of_bounded(values: Seq<i32>)
    ensures
        i32::MIN <= mean_of(values) <= i32::MAX,
{
    if values.len() > 0 {
        lemma_sum_bounded(values);
        let sum = sum_of(values);
        let n = values.len() as int;
        if sum >= 0 {
            assert(0 <= sum / n <= i32::MAX) by (nonlinear_arith)
                requires
                    n > 0,
                    0 <= sum <= n * (i32::MAX as int),
            ;
        } else {
            assert(0 <= (-sum) / n <= -(i32::MIN as int)) by (nonlinear_arith)
                requires
                    n > 0,
                    0 <= -sum <= n * (-(i32::MIN as int)),
            ;
        }
    }
}

/// The mean of the values, rounded toward zero; 0 for no values.
pub fn mean(values: &[i32]) -> (m: i32)
    ensures
        m == mean_of(values@),
{
    let n: usize = values.len();
    if n == 0 {
        return 0;
    }
    let mut sum: i128 = 0;
    let mut i: usize = 0;
    assert(values@.take(0) =~= Seq::<i32>::empty());
    while i < n
        invariant
            i <= n == values.len(),
            sum == sum_of(values@.take(i as int)),
        decreases n - i,
    {
        proof {
            let longer = values@.take(i as int + 1);
            assert(longer.drop_last() =~= values@.take(i as int));
            assert(longer.last() == values@[i as int]);
            lemma_sum_bounded(values@.take(i as int));
            assert(i * (i32::MIN as int) >= usize::MAX * (i32::MIN as int)) by (nonlinear_arith)
                requires
                    0 <= i <= usize::MAX,
            ;
            assert(i * (i32::MAX as int) <= usize::MAX * (i32::MAX as int)) by (nonlinear_arith)
                requires
                    0 <= i <= usize::MAX,
            ;
        }
        sum = sum + values[i] as i128;
        i += 1;
    }
    proof {
        assert(values@.take(n as int) =~= values@);
        lemma_sum_bounded(values@);
        lemma_mean_of_bounded(values@);
    }
    divide_toward_zero(sum, n as i128) as i32
}

/// Whether `n` is one of the numbers.
pub fn contains_number(numbers: &[i32], n: i64) -> (found: bool)
    ensures
        found == occurs(numbers@, n as int),
{
    let len: usize = numbers.len();
    let mut i: usize = 0;
    while i < len
        invariant
            i <= len == numbers.len(),
            forall|j: int| 0 <= j < i ==> #[trigger] numbers@[j] != n,
        decreases len - i,
    {
        if numbers[i] as i64 == n {
            return true;
        }
        i += 1;
    }
    false
}

/// Whether the page number counts as odd.
pub fn is_odd_number(n: i32) -> (odd: bool)
    ensures
        odd == counts_as_odd(n),
{
    n > 0 && n % 2 == 1
}

/// The decimal digits among the characters, in their order.
pub open spec fn digits_of(s: Seq<char>) -> Seq<char>
    decreases s.len(),
{
    if s.len() == 0 {
        Seq::empty()
    } else if is_digit(s.last()) {
        digits_of(s.drop_last()).push(s.last())
    } else {
        digits_of(s.drop_last())
    }
}

/// The confidence, out of 100, of a text that consists of digits only.
pub const CLEAN_CONFIDENCE: u32 = 95;

/// The confidence of a text from which other characters had to be removed.
pub const FILTERED_CONFIDENCE: u32 = 70;

/// The confidence of a text whose digits write no page number.
pub const REJECTED_CONFIDENCE: u32 = 30;

/// The largest page number that is accepted.
pub const MAX_PAGE_NUMBER: i32 = 9999;

/// What a recognised text says: the page number that its digits write, if
/// it lies from 1 to 9999, and the confidence in it out of 100. A text
/// without digits has confidence 0.
pub open spec fn reading_of(raw: Seq<char>) -> (Option<i32>, u32) {
    let digits = digits_of(raw);
    if digits.len() == 0 {
        (None, 0)
    } else if 0 < decimal_value(digits) <= MAX_PAGE_NUMBER {
        (
            Some(decimal_value(digits) as i32),
            if digits == trimmed(raw) {
                CLEAN_CONFIDENCE
            } else {
                FILTERED_CONFIDENCE
            },
        )
    } else {
        (None, REJECTED_CONFIDENCE)
    }
}

/// The band of an image in which the page number is looked for, as its
/// first row and its height: the given percentage of the image height, at
/// the top where the number is expected there, and else at the bottom.
pub open spec fn search_band_of(
    height: u32,
    percent: u32,
    hint: Option<PageNumberPosition>,
) -> (u32, u32) {
    let band = clamp_u32(height as int * percent as int / 100) as u32;
    if hint == Some(PageNumberPosition::TopCenter) || hint == Some(
        PageNumberPosition::TopOutside,
    ) {
        (0, band)
    } else if band > height {
        (0, band)
    } else {
        ((height - band) as u32, band)
    }
}

/// A confidence out of 100 as a part of the whole in millionths, limited to
/// 32 bits.
pub open spec fn points_to_millionths(points: u32) -> u32 {
    clamp_u32(points as int * 10_000) as u32
}

/// The detection of a page: the number is kept where the confidence reaches
/// the threshold of the options, the position is the band over the whole
/// width, and the confidence is held in millionths.
pub open spec fn detection_of(
    page_index: usize,
    reading: (Option<i32>, u32),
    raw_text: String,
    band: (u32, u32),
    width: u32,
    min_confidence: u32,
) -> DetectedPageNumber {
    DetectedPageNumber {
        page_index,
        number: if reading.1 >= min_confidence {
            reading.0
        } else {
            None
        },
        position: PageNumberRect { x: 0, y: band.0, width, height: band.1 },
        confidence: points_to_millionths(reading.1),
        raw_text,
    }
}

/// The sum of the confidences of the detections.
pub open spec fn confidence_sum(detections: Seq<DetectedPageNumber>) -> int
    decreases detections.len(),
{
    if detections.len() == 0 {
        0
    } else {
        confidence_sum(detections.drop_last()) + detections.last().confidence
    }
}

/// The mean confidence of the detections, rounded down; 0 for none.
pub open spec fn mean_confidence(detections: Seq<DetectedPageNumber>) -> int {
    if detections.len() == 0 {
        0
    } else {
        confidence_sum(detections) / (detections.len() as int)
    }
}

/// The sum of confidences is at most the largest confidence times their
/// number.
pub proof fn lemma_confidence_sum_bounded(detections: Seq<DetectedPageNumber>)
    ensures
        0 <= confidence_sum(detections) <= detections.len() * (u32::MAX as int),
    decreases detections.len(),
{
    if detections.len() > 0 {
        lemma_confidence_sum_bounded(detections.drop_last());
        let n = detections.len() as int;
        assert((n - 1) * (u32::MAX as int) + (u32::MAX as int) == n * (u32::MAX as int))
            by (nonlinear_arith);
    }
}

/// What reads page numbers from the images of a book.
pub trait PageNumberDetector {
    /// Reads the page number of one image.
    fn detect_single(
        image_path: &PathBuf,
        page_index: usize,
        options: &PageNumberOptions,
    ) -> Result<DetectedPageNumber, PageNumberError>;

    /// Reads the page numbers of several images and sums them up.
    fn analyze_batch(images: &[PathBuf], options: &PageNumberOptions) -> Result<
        PageNumberAnalysis,
        PageNumberError,
    >;

    /// The horizontal correction of a batch.
    fn calculate_offset(analysis: &PageNumberAnalysis, image_width: u32) -> Result<
        OffsetCorrection,
        PageNumberError,
    >;

    /// Whether the numbers ascend from page to page.
    fn validate_order(analysis: &PageNumberAnalysis) -> Result<bool, PageNumberError>;
}

/// Reads page numbers from the images of a book.
pub struct TesseractPageDetector;

impl TesseractPageDetector {
    /// The band of an image of the given height in which the page number is
    /// looked for, as its first row and its height.
    pub fn search_band(height: u32, options: &PageNumberOptions) -> (band: (u32, u32))
        ensures
            band == search_band_of(height, options.search_region_percent, options.position_hint),
    {
        assert(height as int * options.search_region_percent as int <= 0xFFFF_FFFF * 0xFFFF_FFFF)
            by (nonlinear_arith)
            requires
                0 <= height <= 0xFFFF_FFFF,
                0 <= options.search_region_percent <= 0xFFFF_FFFF,
        ;
        assert(0 <= height as int * options.search_region_percent as int) by (nonlinear_arith)
            requires
                0 <= height,
                0 <= options.search_region_percent,
        ;
        let scaled: u64 = height as u64 * options.search_region_percent as u64 / 100;
        let extent: u32 = if scaled > u32::MAX as u64 { u32::MAX } else { scaled as u32 };
        let at_top = match options.position_hint {
            Some(PageNumberPosition::TopCenter) => true,
            Some(PageNumberPosition::TopOutside) => true,
            _ => false,
        };
        if at_top || extent > height {
            (0, extent)
        } else {
            (height - extent, extent)
        }
    }

    /// What a recognised text says: the page number that its digits write
    /// and the confidence in it out of 100.
    pub fn read_page_number(raw_text: &str) -> (reading: (Option<i32>, u32))
        ensures
            reading == reading_of(raw_text@),
    {
        let chars = chars_of(raw_text);
        let n: usize = chars.len();
        let bounds = trim_bounds(&chars);
        let mut digits: Vec<char> = Vec::new();
        let mut value: u64 = 0;
        let mut i: usize = 0;
        assert(chars@.take(0) =~= Seq::<char>::empty());
        while i < n
            invariant
                i <= n == chars.len(),
                digits@ == digits_of(chars@.take(i as int)),
                value <= 10000,
                value == (if decimal_value(digits@) > 10000 {
                    10000
                } else {
                    decimal_value(digits@)
                }),
                decimal_value(digits@) >= 0,
            decreases n - i,
        {
            let c: char = chars[i];
            proof {
                let longer = chars@.take(i as int + 1);
                assert(longer.drop_last() =~= chars@.take(i as int));
                assert(longer.last() == c);
            }
            if c >= '0' && c <= '9' {
                let d: u64 = (c as u32 - '0' as u32) as u64;
                proof {
                    let more = digits@.push(c);
                    assert(more.drop_last() =~= digits@);
                    assert(more.last() == c);
                }
                digits.push(c);
                let next: u64 = value * 10 + d;
                value = if next > 10000 { 10000 } else { next };
            }
            i += 1;
        }
        assert(chars@.take(n as int) =~= chars@);
        if digits.len() == 0 {
            return (None, 0);
        }
        if value == 0 || value > MAX_PAGE_NUMBER as u64 {
            return (None, REJECTED_CONFIDENCE);
        }
        let clean = same_chars(&digits, &chars, bounds.0, bounds.1);
        (Some(value as i32), if clean { CLEAN_CONFIDENCE } else { FILTERED_CONFIDENCE })
    }

    /// The detection of a page, made of what was read in the band of its
    /// image.
    pub fn resolve_detection(
        page_index: usize,
        reading: (Option<i32>, u32),
        raw_text: String,
        band: (u32, u32),
        width: u32,
        options: &PageNumberOptions,
    ) -> (d: DetectedPageNumber)
        ensures
            d == detection_of(page_index, reading, raw_text, band, width, options.min_confidence),
    {
        let scaled: u64 = reading.1 as u64 * 10_000;
        DetectedPageNumber {
            page_index,
            number: if reading.1 >= options.min_confidence { reading.0 } else { None },
            position: PageNumberRect { x: 0, y: band.0, width, height: band.1 },
            confidence: if scaled > u32::MAX as u64 { u32::MAX } else { scaled as u32 },
            raw_text,
        }
    }

    /// What the detections of a batch say about the book: the pattern of
    /// the positions, the numbers that are missing or repeated, and the mean
    /// confidence.
    pub fn summarize_detections(detections: Vec<DetectedPageNumber>) -> (analysis:
        PageNumberAnalysis)
        ensures
            analysis.detections == detections,
            analysis.odd_page_offset_x == mean_of(parity_centers(detections@, true)),
            analysis.even_page_offset_x == mean_of(parity_centers(detections@, false)),
            analysis.position_pattern == pattern_of(
                analysis.odd_page_offset_x as int,
                analysis.even_page_offset_x as int,
            ),
            analysis.overall_confidence == mean_confidence(detections@),
            analysis.duplicate_pages@ == repeated_numbers(detected_numbers(detections@)),
            detected_numbers(detections@).len() == 0 ==> analysis.missing_pages@.len() == 0,
            forall|low: int, high: int|
                is_least(detected_numbers(detections@), low) && is_greatest(
                    detected_numbers(detections@),
                    high,
                ) ==> analysis.missing_pages@ == #[trigger] missing_offsets(
                    detected_numbers(detections@),
                    low,
                    (high - low + 1) as nat,
                ),
    {
        let pattern = Self::analyze_pattern(detections.as_slice());
        let n: usize = detections.len();
        let mut numbers: Vec<i32> = Vec::new();
        let mut sum: u128 = 0;
        let mut i: usize = 0;
        assert(detections@.take(0) =~= Seq::<DetectedPageNumber>::empty());
        while i < n
            invariant
                i <= n == detections.len(),
                numbers@ == detected_numbers(detections@.take(i as int)),
                sum == confidence_sum(detections@.take(i as int)),
            decreases n - i,
        {
            proof {
                let longer = detections@.take(i as int + 1);
                assert(longer.drop_last() =~= detections@.take(i as int));
                assert(longer.last() == detections@[i as int]);
                lemma_confidence_sum_bounded(detections@.take(i as int));
                assert(i * (u32::MAX as int) <= usize::MAX * (u32::MAX as int))
                    by (nonlinear_arith)
                    requires
                        0 <= i <= usize::MAX,
                ;
            }
            match detections[i].number {
                Some(num) => numbers.push(num),
                None => {},
            }
            sum = sum + detections[i].confidence as u128;
            i += 1;
        }
        proof {
            assert(detections@.take(n as int) =~= detections@);
            lemma_confidence_sum_bounded(detections@);
        }
        let overall_confidence: u32 = if n == 0 {
            0
        } else {
            assert(sum / (n as u128) <= u32::MAX) by (nonlinear_arith)
                requires
                    0 <= sum <= n * (u32::MAX as int),
                    n > 0,
            ;
            (sum / n as u128) as u32
        };
        let missing_pages = Self::find_missing_pages(numbers.as_slice());
        let duplicate_pages = Self::find_duplicate_pages(numbers.as_slice());
        PageNumberAnalysis {
            detections,
            position_pattern: pattern.0,
            odd_page_offset_x: pattern.1,
            even_page_offset_x: pattern.2,
            overall_confidence,
            missing_pages,
            duplicate_pages,
        }
    }

    /// The pattern of the positions of the page numbers, with the mean
    /// horizontal position on the pages with an odd number and on the pages
    /// with an even number.
    pub fn analyze_pattern(detections: &[DetectedPageNumber]) -> (r: (PageNumberPosition, i32, i32))
        ensures
            r.1 == mean_of(parity_centers(detections@, true)),
            r.2 == mean_of(parity_centers(detections@, false)),
            r.0 == pattern_of(r.1 as int, r.2 as int),
    {
        let n: usize = detections.len();
        let mut odd_positions: Vec<i32> = Vec::new();
        let mut even_positions: Vec<i32> = Vec::new();
        let mut i: usize = 0;
        assert(detections@.take(0) =~= Seq::<DetectedPageNumber>::empty());
        while i < n
            invariant
                i <= n == detections.len(),
                odd_positions@ == parity_centers(detections@.take(i as int), true),
                even_positions@ == parity_centers(detections@.take(i as int), false),
            decreases n - i,
        {
            proof {
                let longer = detections@.take(i as int + 1);
                assert(longer.drop_last() =~= detections@.take(i as int));
                assert(longer.last() == detections@[i as int]);
            }
            match detections[i].number {
                Some(num) => {
                    let center = detections[i].position.to_rectangle().center();
                    if is_odd_number(num) {
                        odd_positions.push(center.0);
                    } else {
                        even_positions.push(center.0);
                    }
                },
                None => {},
            }
            i += 1;
        }
        assert(detections@.take(n as int) =~= detections@);
        let odd_avg: i32 = mean(odd_positions.as_slice());
        let even_avg: i32 = mean(even_positions.as_slice());
        let difference: i64 = odd_avg as i64 - even_avg as i64;
        let pattern = if -50 < difference && difference < 50 {
            PageNumberPosition::BottomCenter
        } else if odd_avg > even_avg {
            PageNumberPosition::BottomOutside
        } else {
            PageNumberPosition::BottomInside
        };
        (pattern, odd_avg, even_avg)
    }

    /// The numbers that are missing between the smallest and the largest of
    /// the given numbers, each as its distance from the smallest, in
    /// ascending order.
    pub fn find_missing_pages(numbers: &[i32]) -> (missing: Vec<usize>)
        ensures
            numbers.len() == 0 ==> missing@.len() == 0,
            forall|low: int, high: int|
                is_least(numbers@, low) && is_greatest(numbers@, high) ==> missing@
                    == #[trigger] missing_offsets(numbers@, low, (high - low + 1) as nat),
    {
        let n: usize = numbers.len();
        let mut missing: Vec<usize> = Vec::new();
        if n == 0 {
            assert forall|low: int, high: int|
                is_least(numbers@, low) && is_greatest(numbers@, high) implies missing@
                == #[trigger] missing_offsets(numbers@, low, (high - low + 1) as nat) by {
                assert(!occurs(numbers@, low));
            }
            return missing;
        }
        let mut low: i32 = numbers[0];
        let mut high: i32 = numbers[0];
        let mut i: usize = 1;
        assert(numbers@.take(1) =~= seq![numbers@[0]]);
        assert(numbers@.take(1)[0] == numbers@[0]);
        while i < n
            invariant
                1 <= i <= n == numbers.len(),
                is_least(numbers@.take(i as int), low as int),
                is_greatest(numbers@.take(i as int), high as int),
            decreases n - i,
        {
            proof {
                let shorter = numbers@.take(i as int);
                let longer = numbers@.take(i as int + 1);
                let at_low = choose|j: int| 0 <= j < shorter.len() && shorter[j] == low as int;
                let at_high = choose|j: int| 0 <= j < shorter.len() && shorter[j] == high as int;
                assert(longer[at_low] == low);
                assert(longer[at_high] == high);
                assert(longer[i as int] == numbers@[i as int]);
            }
            if numbers[i] < low {
                low = numbers[i];
            }
            if numbers[i] > high {
                high = numbers[i];
            }
            proof {
                let shorter = numbers@.take(i as int);
                let longer = numbers@.take(i as int + 1);
                assert forall|j: int| 0 <= j < longer.len() implies low <= #[trigger] longer[j]
                    <= high by {
                    if j < i {
                        assert(longer[j] == shorter[j]);
                    }
                }
            }
            i += 1;
        }
        assert(numbers@.take(n as int) =~= numbers@);
        let span: u64 = (high as i64 - low as i64) as u64 + 1;
        let mut k: u64 = 0;
        while k < span
            invariant
                k <= span == high - low + 1,
                span <= 0x1_0000_0000,
                missing@ == missing_offsets(numbers@, low as int, k as nat),
            decreases span - k,
        {
            if !contains_number(numbers, low as i64 + k as i64) {
                missing.push(k as usize);
            }
            k += 1;
        }
        proof {
            assert forall|l: int, h: int|
                is_least(numbers@, l) && is_greatest(numbers@, h) implies missing@
                == #[trigger] missing_offsets(numbers@, l, (h - l + 1) as nat) by {
                let at_l = choose|j: int| 0 <= j < numbers@.len() && numbers@[j] == l;
                let at_h = choose|j: int| 0 <= j < numbers@.len() && numbers@[j] == h;
                let at_low = choose|j: int| 0 <= j < numbers@.len() && numbers@[j] == low as int;
                let at_high = choose|j: int|
                    0 <= j < numbers@.len() && numbers@[j] == high as int;
                assert(low <= numbers@[at_l] && l <= numbers@[at_low]);
                assert(numbers@[at_h] <= high && numbers@[at_high] <= h);
            }
        }
        missing
    }

    /// The numbers that occur again: each occurrence of a number after its
    /// first, in the order of the list.
    pub fn find_duplicate_pages(numbers: &[i32]) -> (duplicates: Vec<i32>)
        ensures
            duplicates@ == repeated_numbers(numbers@),
    {
        let n: usize = numbers.len();
        let mut duplicates: Vec<i32> = Vec::new();
        let mut i: usize = 0;
        assert(numbers@.take(0) =~= Seq::<i32>::empty());
        while i < n
            invariant
                i <= n == numbers.len(),
                duplicates@ == repeated_numbers(numbers@.take(i as int)),
            decreases n - i,
        {
            let current: i32 = numbers[i];
            let mut seen = false;
            let mut j: usize = 0;
            while j < i
                invariant
                    j <= i < n == numbers.len(),
                    current == numbers@[i as int],
                    seen == exists|k: int| 0 <= k < j && #[trigger] numbers@[k] == current,
                decreases i - j,
            {
                if numbers[j] == current {
                    seen = true;
                }
                j += 1;
            }
            proof {
                let shorter = numbers@.take(i as int);
                let longer = numbers@.take(i as int + 1);
                assert(longer.drop_last() =~= shorter);
                assert(longer.last() == current);
                if seen {
                    let k = choose|k: int| 0 <= k < i && #[trigger] numbers@[k] == current;
                    assert(shorter[k] == current);
                } else if occurs(shorter, current as int) {
                    let k = choose|k: int| 0 <= k < shorter.len() && #[trigger] shorter[k]
                        == current as int;
                    assert(numbers@[k] == current);
                }
            }
            if seen {
                duplicates.push(current);
            }
            i += 1;
        }
        assert(numbers@.take(n as int) =~= numbers@);
        duplicates
    }

    /// The horizontal correction of a batch: for each page with a number the
    /// mean position of its parity, and the mean of these corrections as the
    /// one recommended for all pages. The image width is accepted and not
    /// consulted.
    pub fn calculate_offset(analysis: &PageNumberAnalysis, _image_width: u32) -> (r: Result<
        OffsetCorrection,
        PageNumberError,
    >)
        ensures
            r matches Ok(correction) && {
                &&& correction.page_offsets@ == offsets_by_parity(
                    analysis.detections@,
                    analysis.odd_page_offset_x,
                    analysis.even_page_offset_x,
                )
                &&& correction.unified_offset == mean_of(offset_values(correction.page_offsets@))
            },
    {
        let n: usize = analysis.detections.len();
        let mut page_offsets: Vec<(usize, i32)> = Vec::new();
        let mut values: Vec<i32> = Vec::new();
        let mut i: usize = 0;
        assert(analysis.detections@.take(0) =~= Seq::<DetectedPageNumber>::empty());
        while i < n
            invariant
                i <= n == analysis.detections.len(),
                page_offsets@ == offsets_by_parity(
                    analysis.detections@.take(i as int),
                    analysis.odd_page_offset_x,
                    analysis.even_page_offset_x,
                ),
                values@ == offset_values(page_offsets@),
            decreases n - i,
        {
            proof {
                let longer = analysis.detections@.take(i as int + 1);
                assert(longer.drop_last() =~= analysis.detections@.take(i as int));
                assert(longer.last() == analysis.detections@[i as int]);
            }
            match analysis.detections[i].number {
                Some(num) => {
                    let offset: i32 = if is_odd_number(num) {
                        analysis.odd_page_offset_x
                    } else {
                        analysis.even_page_offset_x
                    };
                    page_offsets.push((i, offset));
                    values.push(offset);
                    assert(values@ =~= offset_values(page_offsets@));
                },
                None => {},
            }
            i += 1;
        }
        assert(analysis.detections@.take(n as int) =~= analysis.detections@);
        let unified_offset: i32 = mean(values.as_slice());
        Ok(OffsetCorrection { page_offsets, unified_offset })
    }

    /// Whether the numbers that were detected ascend from page to page.
    /// Fewer than two numbers ascend.
    pub fn validate_order(analysis: &PageNumberAnalysis) -> (r: Result<bool, PageNumberError>)
        ensures
            r matches Ok(ascending) && ascending == strictly_ascending(
                detected_numbers(analysis.detections@),
            ),
    {
        let n: usize = analysis.detections.len();
        let mut previous: Option<i32> = None;
        let mut i: usize = 0;
        assert(analysis.detections@.take(0) =~= Seq::<DetectedPageNumber>::empty());
        while i < n
            invariant
                i <= n == analysis.detections.len(),
                strictly_ascending(detected_numbers(analysis.detections@.take(i as int))),
                match previous {
                    Some(p) => detected_numbers(analysis.detections@.take(i as int)).len() > 0
                        && detected_numbers(analysis.detections@.take(i as int)).last() == p,
                    None => detected_numbers(analysis.detections@.take(i as int)).len() == 0,
                },
            decreases n - i,
        {
            proof {
                let longer = analysis.detections@.take(i as int + 1);
                assert(longer.drop_last() =~= analysis.detections@.take(i as int));
                assert(longer.last() == analysis.detections@[i as int]);
            }
            match analysis.detections[i].number {
                Some(num) => {
                    match previous {
                        Some(p) => {
                            if num <= p {
                                proof {
                                    let numbers = detected_numbers(
                                        analysis.detections@.take(i as int + 1),
                                    );
                                    let at = numbers.len() - 1;
                                    assert(numbers[at - 1] == p);
                                    assert(numbers[at] == num);
                                    lemma_order_stays_broken(analysis.detections@, i as int + 1);
                                }
                                return Ok(false);
                            }
                        },
                        None => {},
                    }
                    proof {
                        let before = detected_numbers(analysis.detections@.take(i as int));
                        let numbers = detected_numbers(analysis.detections@.take(i as int + 1));
                        assert(numbers == before.push(num));
                        assert forall|k: int| 1 <= k < numbers.len() implies numbers[k - 1]
                            < #[trigger] numbers[k] by {
                            if k < before.len() {
                                assert(numbers[k] == before[k]);
                                assert(numbers[k - 1] == before[k - 1]);
                            } else {
                                assert(numbers[k - 1] == before[k - 1]);
                            }
                        }
                    }
                    previous = Some(num);
                },
                None => {},
            }
            i += 1;
        }
        assert(analysis.detections@.take(n as int) =~= analysis.detections@);
        Ok(true)
    }

    /// Reads a Roman numeral, in capitals or in small letters. Returns
    /// nothing for a text that is no Roman numeral.
    pub fn parse_roman_numeral(text: &str) -> (number: Option<i32>)
        ensures
            number == roman_number(text@),
    {
        let lower = to_lowercase(text);
        let chars = trimmed_chars(lower.as_str());
        read_roman_numeral(chars.as_slice())
    }
}

/// Reads Roman symbols in small letters: each symbol, the largest first, as
/// often as it stands at the front of what is left. Returns their sum, or
/// nothing where a character is left over, where no symbol was read, or
/// where the sum does not fit in 32 bits.
pub fn read_roman_numeral(chars: &[char]) -> (number: Option<i32>)
    ensures
        number == roman_value(chars@),
{
    let end: usize = chars.len();
    let ghost body = chars@;
    let mut at: usize = 0;
    let mut result: i64 = 0;
    let mut k: usize = 0;
    assert(body.skip(0) =~= body);
    while k < NUMERAL_SYMBOLS
        invariant
            k <= NUMERAL_SYMBOLS,
            at <= end == chars.len(),
            body == chars@,
            0 <= result <= i32::MAX,
            read_numerals(body, 0) == (
                result + read_numerals(body.skip(at as int), k as int).0,
                read_numerals(body.skip(at as int), k as int).1,
            ),
        decreases NUMERAL_SYMBOLS - k, end - at,
    {
        let parts = symbol_parts(k);
        let ghost rest = body.skip(at as int);
        let ghost symbol = numeral_symbol(k as int);
        let fits = match parts.1 {
            Some(second) => end - at >= 2 && chars[at] == parts.0 && chars[at + 1] == second,
            None => at < end && chars[at] == parts.0,
        };
        proof {
            assert(rest.len() == end - at);
            if symbol.len() <= rest.len() {
                assert(rest.take(symbol.len() as int)[0] == chars@[at as int]);
                if symbol.len() == 2 {
                    assert(rest.take(2)[1] == chars@[at as int + 1]);
                }
            }
            if fits {
                assert(rest.take(symbol.len() as int) =~= symbol);
            }
            assert(fits == begins_with(rest, symbol));
        }
        if fits {
            let length: usize = if parts.1.is_some() { 2 } else { 1 };
            proof {
                let after = rest.skip(symbol.len() as int);
                assert(after =~= body.skip(at + length));
                lemma_read_numerals_nonnegative(after, k as int);
                assert(read_numerals(rest, k as int) == (
                    numeral_value(k as int) + read_numerals(after, k as int).0,
                    read_numerals(after, k as int).1,
                ));
            }
            if result + parts.2 > i32::MAX as i64 {
                return None;
            }
            result = result + parts.2;
            at = at + length;
        } else {
            k += 1;
        }
    }
    if at == end && result > 0 {
        Some(result as i32)
    } else {
        None
    }
}

/// Whether `digits` spells the same as the part of `chars` from `start` to
/// `end`.
fn same_chars(digits: &Vec<char>, chars: &Vec<char>, start: usize, end: usize) -> (same: bool)
    requires
        start <= end <= chars.len(),
    ensures
        same == (digits@ == chars@.subrange(start as int, end as int)),
{
    if digits.len() != end - start {
        return false;
    }
    let n: usize = digits.len();
    let mut i: usize = 0;
    while i < n
        invariant
            i <= n == digits.len(),
            n == end - start,
            end <= chars.len(),
            forall|j: int| 0 <= j < i ==> digits@[j] == chars@[start + j],
        decreases n - i,
    {
        if digits[i] != chars[start + i] {
            assert(chars@.subrange(start as int, end as int)[i as int] != digits@[i as int]);
            return false;
        }
        i += 1;
    }
    assert(digits@ =~= chars@.subrange(start as int, end as int));
    true
}

/// Once two numbers stand in the wrong order, no later number mends it.
pub proof fn lemma_order_stays_broken(detections: Seq<DetectedPageNumber>, k: int)
    requires
        0 <= k <= detections.len(),
        !strictly_ascending(detected_numbers(detections.take(k))),
    ensures
        !strictly_ascending(detected_numbers(detections)),
    decreases detections.len() - k,
{
    if k == detections.len() {
        assert(detections.take(k) =~= detections);
    } else {
        let shorter = detected_numbers(detections.take(k));
        let longer = detections.take(k + 1);
        assert(longer.drop_last() =~= detections.take(k));
        let numbers = detected_numbers(longer);
        let at = choose|i: int| 1 <= i < shorter.len() && !(shorter[i - 1] < #[trigger] shorter[i]);
        assert(numbers[at] == shorter[at] && numbers[at - 1] == shorter[at - 1]);
        lemma_order_stays_broken(detections, k + 1);
    }
}

} // verus!
