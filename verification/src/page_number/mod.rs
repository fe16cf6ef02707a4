//! Page-number candidates, their matching and the book-wide offset analysis.

pub mod detect;
pub mod geometry;
pub mod offset;
pub mod overlap;
pub mod reading;
pub mod shift;
pub mod types;

pub use detect::{
    find_page_number_with_fallback, find_page_numbers_batch, select_match, FallbackMatchStats,
    MIN_SIMILARITY_THRESHOLD, SEARCH_REGION_MARGIN_PERCENT,
};
pub use geometry::{Point, Rectangle};
pub use offset::{BookOffsetAnalysis, PageOffsetAnalyzer, PageOffsetResult};
pub use overlap::{
    calc_average_center, calc_group_reference_position, calc_intersection_center,
    calc_overlap_center,
};
pub use reading::{PageNumberDetector, TesseractPageDetector};
pub use types::{
    DetectedPageNumber, MatchStage, OffsetCorrection, PageNumberAnalysis, PageNumberCandidate,
    PageNumberError, PageNumberMatch, PageNumberOptions, PageNumberOptionsBuilder,
    PageNumberPosition, PageNumberRect, Result,
};
