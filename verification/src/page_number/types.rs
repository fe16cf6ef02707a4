//! The records that page-number detection and offset analysis work on.
//!
//! Confidences, similarities, scores and qualities count millionths:
//! `1_000_000` stands for one whole. Distances count thousandths of a pixel.
//! The percentages of the options are whole numbers.

use vstd::prelude::*;
use std::path::PathBuf;
use crate::page_number::geometry::{distance_milli, Rectangle};
use crate::text::{decimal_number, parse_decimal, trim_text, trimmed};

verus! {

/// The part of the image height that is searched by default, in percent.
pub const DEFAULT_SEARCH_REGION_PERCENT: u32 = 10;

/// The larger search region for vertical text, in percent.
pub const VERTICAL_SEARCH_REGION_PERCENT: u32 = 12;

/// The least recognition confidence that is accepted by default, out of 100.
pub const DEFAULT_MIN_CONFIDENCE: u32 = 60;

/// The least recognition confidence of the strict profile, out of 100.
pub const STRICT_MIN_CONFIDENCE: u32 = 80;

/// The smallest search region that can be set, in percent.
pub const MIN_SEARCH_REGION: u32 = 5;

/// The largest search region that can be set, in percent.
pub const MAX_SEARCH_REGION: u32 = 50;

/// The smallest confidence threshold that can be set.
pub const MIN_CONFIDENCE_CLAMP: u32 = 0;

/// The largest confidence threshold that can be set.
pub const MAX_CONFIDENCE_CLAMP: u32 = 100;

/// `std::path::PathBuf`, which is carried through and never looked into.
#[verifier::external_type_specification]
#[verifier::external_body]
pub struct ExPathBuf(PathBuf);

/// `std::io::Error`, which is carried through and never looked into.
#[verifier::external_type_specification]
#[verifier::external_body]
pub struct ExIoError(std::io::Error);

/// What can go wrong while page numbers are read from images.
#[derive(Debug)]
pub enum PageNumberError {
    /// No image at this path.
    ImageNotFound(PathBuf),
    /// The recognition engine failed.
    OcrFailed(String),
    /// No page carries a number.
    NoPageNumbersDetected,
    /// The numbers found contradict each other.
    InconsistentPageNumbers,
    /// Reading or writing failed.
    IoError(std::io::Error),
}

impl From<std::io::Error> for PageNumberError {
    fn from(e: std::io::Error) -> (r: Self) {
        PageNumberError::IoError(e)
    }
}

impl vstd::std_specs::convert::FromSpecImpl<std::io::Error> for PageNumberError {
    open spec fn obeys_from_spec() -> bool {
        true
    }

    open spec fn from_spec(e: std::io::Error) -> Self {
        PageNumberError::IoError(e)
    }
}

/// The result of an operation that may fail with a `PageNumberError`.
pub type Result<T> = std::result::Result<T, PageNumberError>;

/// Where on the page the number is printed.
#[derive(Debug, Clone, Copy, PartialEq, Eq, Structural)]
pub enum PageNumberPosition {
    /// Bottom center.
    BottomCenter,
    /// Bottom, on the outer edge: right on odd pages, left on even ones.
    BottomOutside,
    /// Bottom, on the inner edge.
    BottomInside,
    /// Top center.
    TopCenter,
    /// Top, on the outer edge.
    TopOutside,
}

/// The place of a detected page number, in unsigned pixel coordinates.
#[derive(Debug, Clone, Copy, PartialEq, Eq, Structural)]
pub struct PageNumberRect {
    pub x: u32,
    pub y: u32,
    pub width: u32,
    pub height: u32,
}

impl PageNumberRect {
    /// The same place as a `Rectangle`; a coordinate beyond the signed range
    /// becomes the largest signed value.
    pub open spec fn spec_to_rectangle(&self) -> Rectangle {
        Rectangle {
            x: if self.x > i32::MAX as u32 { i32::MAX } else { self.x as i32 },
            y: if self.y > i32::MAX as u32 { i32::MAX } else { self.y as i32 },
            width: self.width,
            height: self.height,
        }
    }

    /// The same place as a `Rectangle`.
    #[verifier::when_used_as_spec(spec_to_rectangle)]
    pub fn to_rectangle(&self) -> (r: Rectangle)
        ensures
            r == self.spec_to_rectangle(),
    {
        Rectangle {
            x: if self.x > i32::MAX as u32 { i32::MAX } else { self.x as i32 },
            y: if self.y > i32::MAX as u32 { i32::MAX } else { self.y as i32 },
            width: self.width,
            height: self.height,
        }
    }
}

/// The page number that was resolved for one page.
#[derive(Debug)]
pub struct DetectedPageNumber {
    /// The page's position in the file, counted from 0.
    pub page_index: usize,
    /// The number read, if any.
    pub number: Option<i32>,
    /// Where it was read.
    pub position: PageNumberRect,
    /// The confidence of the reading, in millionths.
    pub confidence: u32,
    /// The text as it was recognised.
    pub raw_text: String,
}

impl Clone for DetectedPageNumber {
    fn clone(&self) -> (r: Self)
        ensures
            r == *self,
    {
        DetectedPageNumber {
            page_index: self.page_index,
            number: self.number,
            position: self.position,
            confidence: self.confidence,
            raw_text: self.raw_text.clone(),
        }
    }
}

/// What a batch of pages says about the book's numbering.
#[derive(Debug)]
pub struct PageNumberAnalysis {
    /// One detection per page.
    pub detections: Vec<DetectedPageNumber>,
    /// Where the numbers are printed.
    pub position_pattern: PageNumberPosition,
    /// The mean horizontal position on odd-numbered pages, in pixels.
    pub odd_page_offset_x: i32,
    /// The mean horizontal position on even-numbered pages, in pixels.
    pub even_page_offset_x: i32,
    /// The mean confidence of the detections, in millionths.
    pub overall_confidence: u32,
    /// The numbers that are missing, counted from the smallest number found.
    pub missing_pages: Vec<usize>,
    /// The numbers that occur again after their first occurrence.
    pub duplicate_pages: Vec<i32>,
}

/// The horizontal correction for a batch of pages.
#[derive(Debug)]
pub struct OffsetCorrection {
    /// For each page with a number, its index and its offset.
    pub page_offsets: Vec<(usize, i32)>,
    /// The offset recommended for all pages.
    pub unified_offset: i32,
}

/// One text region that recognition found on a page.
#[derive(Debug)]
pub struct PageNumberCandidate {
    /// The text as it was recognised.
    pub text: String,
    /// The number that the trimmed text writes, if it writes one.
    pub number: Option<u32>,
    /// Where the text stands.
    pub bbox: Rectangle,
    /// The confidence of the recognition, in millionths.
    pub confidence: u32,
    /// Whether any text was recognised.
    pub ocr_success: bool,
}

impl Clone for PageNumberCandidate {
    fn clone(&self) -> (r: Self)
        ensures
            r == *self,
    {
        PageNumberCandidate {
            text: self.text.clone(),
            number: self.number,
            bbox: self.bbox,
            confidence: self.confidence,
            ocr_success: self.ocr_success,
        }
    }
}

impl PageNumberCandidate {
    /// The candidate with the given text, place and confidence. Its number
    /// is the decimal number that the trimmed text writes; recognition
    /// counts as successful when the trimmed text is not empty.
    pub fn new(text: String, bbox: Rectangle, confidence: u32) -> (c: Self)
        ensures
            c.text == text,
            c.number == decimal_number(trimmed(text@)),
            c.bbox == bbox,
            c.confidence == confidence,
            c.ocr_success == (c.number is Some || trimmed(text@).len() > 0),
    {
        let clean = trim_text(text.as_str());
        let number = parse_decimal(clean.as_str());
        let ocr_success = number.is_some() || !clean.as_str().is_empty();
        PageNumberCandidate { text, number, bbox, confidence, ocr_success }
    }

    /// The distance from the center of the candidate's box to `(px, py)`, in
    /// thousandths of a pixel.
    pub fn distance_to(&self, px: i32, py: i32) -> (d: u64)
        ensures
            d == distance_milli(self.bbox.spec_distance_sq_to(px, py) as int),
    {
        self.bbox.distance_to(px, py)
    }
}

/// The stage of the cascade at which a match was found, best first.
#[derive(Debug, Clone, Copy, PartialEq, Eq, Structural)]
pub enum MatchStage {
    /// The number is the expected one and lies in the search region.
    ExactMatch,
    /// The text is similar to the expected number and lies in the region.
    SimilarityMatch,
    /// Some text was recognised, anywhere on the page.
    OcrSuccessMatch,
    /// The nearest region, whatever it holds.
    FallbackMatch,
}

impl MatchStage {
    /// The stage's number, from 1 for the best to 4.
    pub open spec fn spec_stage_number(&self) -> u8 {
        match self {
            MatchStage::ExactMatch => 1,
            MatchStage::SimilarityMatch => 2,
            MatchStage::OcrSuccessMatch => 3,
            MatchStage::FallbackMatch => 4,
        }
    }

    /// The stage's number, from 1 for the best to 4.
    #[verifier::when_used_as_spec(spec_stage_number)]
    pub fn stage_number(&self) -> (n: u8)
        ensures
            n == self.spec_stage_number(),
    {
        match self {
            MatchStage::ExactMatch => 1,
            MatchStage::SimilarityMatch => 2,
            MatchStage::OcrSuccessMatch => 3,
            MatchStage::FallbackMatch => 4,
        }
    }

    /// A line of text that describes the stage.
    pub fn description(&self) -> (d: &'static str)
        ensures
            *self == MatchStage::ExactMatch ==> d@
                == "Exact match + within region + minimum distance"@,
            *self == MatchStage::SimilarityMatch ==> d@
                == "Maximum similarity (Jaro-Winkler) + within region"@,
            *self == MatchStage::OcrSuccessMatch ==> d@ == "OCR success region + minimum distance"@,
            *self == MatchStage::FallbackMatch ==> d@
                == "Fallback: All detected regions + minimum distance"@,
    {
        match self {
            MatchStage::ExactMatch => "Exact match + within region + minimum distance",
            MatchStage::SimilarityMatch => "Maximum similarity (Jaro-Winkler) + within region",
            MatchStage::OcrSuccessMatch => "OCR success region + minimum distance",
            MatchStage::FallbackMatch => "Fallback: All detected regions + minimum distance",
        }
    }
}

/// How near a distance is on a scale of 1000 pixels, in millionths: one whole
/// at distance 0, nothing from 1000 pixels on.
pub open spec fn closeness(distance: u64) -> int {
    if distance >= 1_000_000 {
        0
    } else {
        1_000_000 - distance as int
    }
}

/// The candidate chosen for a page, and how it was chosen.
#[derive(Debug)]
pub struct PageNumberMatch {
    /// The chosen candidate.
    pub candidate: PageNumberCandidate,
    /// The stage that chose it.
    pub stage: MatchStage,
    /// The score in millionths; what it measures depends on the stage.
    pub score: u32,
    /// The distance to the reference point, in thousandths of a pixel.
    pub distance: u64,
    /// The number that was looked for.
    pub expected_number: u32,
}

impl Clone for PageNumberMatch {
    fn clone(&self) -> (r: Self)
        ensures
            r == *self,
    {
        PageNumberMatch {
            candidate: self.candidate.clone(),
            stage: self.stage,
            score: self.score,
            distance: self.distance,
            expected_number: self.expected_number,
        }
    }
}

impl PageNumberMatch {
    /// Whether the match was found by the first stage.
    pub open spec fn spec_is_exact(&self) -> bool {
        self.stage == MatchStage::ExactMatch
    }

    /// The quality of the match, in millionths: a single number by which
    /// matches compare, higher for an earlier stage.
    pub open spec fn spec_quality(&self) -> u64 {
        match self.stage {
            MatchStage::ExactMatch => (1_000_000 + self.score as int) as u64,
            MatchStage::SimilarityMatch => (750_000 + self.score as int / 4) as u64,
            MatchStage::OcrSuccessMatch => (500_000 + closeness(self.distance) / 4) as u64,
            MatchStage::FallbackMatch => (250_000 + closeness(self.distance) / 4) as u64,
        }
    }

    /// The match made of the given parts.
    pub fn new(
        candidate: PageNumberCandidate,
        stage: MatchStage,
        score: u32,
        distance: u64,
        expected_number: u32,
    ) -> (m: Self)
        ensures
            m == (PageNumberMatch { candidate, stage, score, distance, expected_number }),
    {
        PageNumberMatch { candidate, stage, score, distance, expected_number }
    }

    /// Whether the match was found by the first stage.
    #[verifier::when_used_as_spec(spec_is_exact)]
    pub fn is_exact(&self) -> (exact: bool)
        ensures
            exact == self.spec_is_exact(),
    {
        self.stage == MatchStage::ExactMatch
    }

    /// The quality of the match, in millionths: one whole plus the score for
    /// an exact match; three quarters plus a quarter of the score for a
    /// similar text; a half, or a quarter, plus a quarter of the closeness
    /// for the last two stages.
    #[verifier::when_used_as_spec(spec_quality)]
    pub fn quality(&self) -> (q: u64)
        ensures
            q == self.spec_quality(),
    {
        match self.stage {
            MatchStage::ExactMatch => 1_000_000 + self.score as u64,
            MatchStage::SimilarityMatch => 750_000 + (self.score / 4) as u64,
            MatchStage::OcrSuccessMatch => 500_000 + closeness_of(self.distance) / 4,
            MatchStage::FallbackMatch => 250_000 + closeness_of(self.distance) / 4,
        }
    }
}

/// How near a distance is on a scale of 1000 pixels, in millionths.
pub fn closeness_of(distance: u64) -> (c: u64)
    ensures
        c == closeness(distance),
{
    if distance >= 1_000_000 {
        0
    } else {
        1_000_000 - distance
    }
}

/// The quality of a match of an earlier stage is never below that of a
/// match of a later stage, for scores of at most one whole.
pub proof fn law_quality_orders_stages(a: PageNumberMatch, b: PageNumberMatch)
    requires
        a.stage.spec_stage_number() < b.stage.spec_stage_number(),
        a.score <= 1_000_000,
        b.score <= 1_000_000,
    ensures
        a.spec_quality() >= b.spec_quality(),
{
}

/// The settings of page-number detection.
#[derive(Debug)]
pub struct PageNumberOptions {
    /// The part of the image height that is searched, in percent.
    pub search_region_percent: u32,
    /// The language that recognition is told to expect.
    pub ocr_language: String,
    /// The least confidence at which a number is accepted, out of 100.
    pub min_confidence: u32,
    /// Whether only digits are looked for.
    pub numbers_only: bool,
    /// Where the number is expected, if known.
    pub position_hint: Option<PageNumberPosition>,
}

impl Clone for PageNumberOptions {
    fn clone(&self) -> (r: Self)
        ensures
            r == *self,
    {
        PageNumberOptions {
            search_region_percent: self.search_region_percent,
            ocr_language: self.ocr_language.clone(),
            min_confidence: self.min_confidence,
            numbers_only: self.numbers_only,
            position_hint: self.position_hint,
        }
    }
}

impl Default for PageNumberOptions {
    /// A tenth of the height, Japanese and English, confidence 60, digits
    /// only, no position hint.
    fn default() -> (o: Self)
        ensures
            o.search_region_percent == DEFAULT_SEARCH_REGION_PERCENT,
            o.ocr_language@ == "jpn+eng"@,
            o.min_confidence == DEFAULT_MIN_CONFIDENCE,
            o.numbers_only,
            o.position_hint is None,
    {
        PageNumberOptions {
            search_region_percent: DEFAULT_SEARCH_REGION_PERCENT,
            ocr_language: "jpn+eng".to_owned(),
            min_confidence: DEFAULT_MIN_CONFIDENCE,
            numbers_only: true,
            position_hint: None,
        }
    }
}

impl PageNumberOptions {
    /// A builder that starts from the default settings.
    pub fn builder() -> (b: PageNumberOptionsBuilder)
        ensures
            b@.search_region_percent == DEFAULT_SEARCH_REGION_PERCENT,
            b@.ocr_language@ == "jpn+eng"@,
            b@.min_confidence == DEFAULT_MIN_CONFIDENCE,
            b@.numbers_only,
            b@.position_hint is None,
    {
        PageNumberOptionsBuilder::default()
    }

    /// The settings for Japanese books: vertical text, a larger region.
    pub fn japanese() -> (o: Self)
        ensures
            o.search_region_percent == VERTICAL_SEARCH_REGION_PERCENT,
            o.ocr_language@ == "jpn"@,
            o.min_confidence == DEFAULT_MIN_CONFIDENCE,
            o.numbers_only,
            o.position_hint is None,
    {
        PageNumberOptions {
            search_region_percent: VERTICAL_SEARCH_REGION_PERCENT,
            ocr_language: "jpn".to_owned(),
            min_confidence: DEFAULT_MIN_CONFIDENCE,
            numbers_only: true,
            position_hint: None,
        }
    }

    /// The settings for English books.
    pub fn english() -> (o: Self)
        ensures
            o.search_region_percent == DEFAULT_SEARCH_REGION_PERCENT,
            o.ocr_language@ == "eng"@,
            o.min_confidence == DEFAULT_MIN_CONFIDENCE,
            o.numbers_only,
            o.position_hint is None,
    {
        PageNumberOptions {
            search_region_percent: DEFAULT_SEARCH_REGION_PERCENT,
            ocr_language: "eng".to_owned(),
            min_confidence: DEFAULT_MIN_CONFIDENCE,
            numbers_only: true,
            position_hint: None,
        }
    }

    /// The default settings with the strict confidence threshold.
    pub fn strict() -> (o: Self)
        ensures
            o.search_region_percent == DEFAULT_SEARCH_REGION_PERCENT,
            o.ocr_language@ == "jpn+eng"@,
            o.min_confidence == STRICT_MIN_CONFIDENCE,
            o.numbers_only,
            o.position_hint is None,
    {
        PageNumberOptions {
            search_region_percent: DEFAULT_SEARCH_REGION_PERCENT,
            ocr_language: "jpn+eng".to_owned(),
            min_confidence: STRICT_MIN_CONFIDENCE,
            numbers_only: true,
            position_hint: None,
        }
    }
}

/// `v` limited to the range from `low` to `high`.
pub open spec fn clamp_between(v: int, low: int, high: int) -> int {
    if v < low {
        low
    } else if v > high {
        high
    } else {
        v
    }
}

/// Builds `PageNumberOptions` setting by setting.
#[derive(Debug)]
pub struct PageNumberOptionsBuilder {
    options: PageNumberOptions,
}

impl View for PageNumberOptionsBuilder {
    type V = PageNumberOptions;

    /// The settings as they are built so far.
    closed spec fn view(&self) -> PageNumberOptions {
        self.options
    }
}

impl Default for PageNumberOptionsBuilder {
    /// A builder that starts from the default settings.
    fn default() -> (b: Self)
        ensures
            b@.search_region_percent == DEFAULT_SEARCH_REGION_PERCENT,
            b@.ocr_language@ == "jpn+eng"@,
            b@.min_confidence == DEFAULT_MIN_CONFIDENCE,
            b@.numbers_only,
            b@.position_hint is None,
    {
        PageNumberOptionsBuilder { options: PageNumberOptions::default() }
    }
}

impl PageNumberOptionsBuilder {
    /// Sets the search region in percent of the image height, limited to the
    /// range from 5 to 50.
    #[must_use]
    pub fn search_region_percent(self, percent: i32) -> (b: Self)
        ensures
            b@.search_region_percent == clamp_between(
                percent as int,
                MIN_SEARCH_REGION as int,
                MAX_SEARCH_REGION as int,
            ),
            b@.ocr_language == self@.ocr_language,
            b@.min_confidence == self@.min_confidence,
            b@.numbers_only == self@.numbers_only,
            b@.position_hint == self@.position_hint,
    {
        let limited: u32 = if percent < MIN_SEARCH_REGION as i32 {
            MIN_SEARCH_REGION
        } else if percent > MAX_SEARCH_REGION as i32 {
            MAX_SEARCH_REGION
        } else {
            percent as u32
        };
        let mut options = self.options;
        options.search_region_percent = limited;
        PageNumberOptionsBuilder { options }
    }

    /// Sets the language that recognition is told to expect.
    #[must_use]
    pub fn ocr_language(self, lang: &str) -> (b: Self)
        ensures
            b@.ocr_language@ == lang@,
            b@.search_region_percent == self@.search_region_percent,
            b@.min_confidence == self@.min_confidence,
            b@.numbers_only == self@.numbers_only,
            b@.position_hint == self@.position_hint,
    {
        let mut options = self.options;
        options.ocr_language = lang.to_owned();
        PageNumberOptionsBuilder { options }
    }

    /// Sets the least confidence at which a number is accepted, limited to
    /// the range from 0 to 100.
    #[must_use]
    pub fn min_confidence(self, confidence: i32) -> (b: Self)
        ensures
            b@.min_confidence == clamp_between(
                confidence as int,
                MIN_CONFIDENCE_CLAMP as int,
                MAX_CONFIDENCE_CLAMP as int,
            ),
            b@.search_region_percent == self@.search_region_percent,
            b@.ocr_language == self@.ocr_language,
            b@.numbers_only == self@.numbers_only,
            b@.position_hint == self@.position_hint,
    {
        let limited: u32 = if confidence < MIN_CONFIDENCE_CLAMP as i32 {
            MIN_CONFIDENCE_CLAMP
        } else if confidence > MAX_CONFIDENCE_CLAMP as i32 {
            MAX_CONFIDENCE_CLAMP
        } else {
            confidence as u32
        };
        let mut options = self.options;
        options.min_confidence = limited;
        PageNumberOptionsBuilder { options }
    }

    /// Sets whether only digits are looked for.
    #[must_use]
    pub fn numbers_only(self, only: bool) -> (b: Self)
        ensures
            b@.numbers_only == only,
            b@.search_region_percent == self@.search_region_percent,
            b@.ocr_language == self@.ocr_language,
            b@.min_confidence == self@.min_confidence,
            b@.position_hint == self@.position_hint,
    {
        let mut options = self.options;
        options.numbers_only = only;
        PageNumberOptionsBuilder { options }
    }

    /// Sets where the number is expected.
    #[must_use]
    pub fn position_hint(self, position: PageNumberPosition) -> (b: Self)
        ensures
            b@.position_hint == Some(position),
            b@.search_region_percent == self@.search_region_percent,
            b@.ocr_language == self@.ocr_language,
            b@.min_confidence == self@.min_confidence,
            b@.numbers_only == self@.numbers_only,
    {
        let mut options = self.options;
        options.position_hint = Some(position);
        PageNumberOptionsBuilder { options }
    }

    /// The settings as they were built.
    #[must_use]
    pub fn build(self) -> (o: PageNumberOptions)
        ensures
            o == self@,
    {
        self.options
    }
}

} // verus!
