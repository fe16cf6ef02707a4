//! The computing core of a digitisation pipeline for scanned books.
//!
//! `page_number` recovers the printed number of each scanned page and the
//! shift that aligns the numbers across the book: the geometry of points
//! and rectangles, the matching of recognised text against the number that
//! a page is expected to carry, the shift between physical and printed
//! numbers, the reference position of the numbers of odd and of even pages,
//! and the correction of each page.
//!
//! The other modules hold what the same pipeline computes when it writes a
//! book out as Markdown: the rules on lines and blocks of recognised text,
//! the content of a page, the regions of figures, and the record of a
//! conversion.
//!
//! Every real-valued quantity is held as an integer: confidences,
//! similarities, scores, qualities, rates, font sizes and parts count
//! millionths, distances and line heights count thousandths of a pixel, and
//! percentages are whole numbers.

pub mod block_text;
pub mod figure_detect;
pub mod markdown_gen;
pub mod markdown_pipeline;
pub mod normalize;
pub mod numeric;
pub mod page_content;
pub mod page_number;
pub mod preview_stage;
pub mod sorting;
pub mod text;
pub mod text_blocks;
pub mod websocket;
