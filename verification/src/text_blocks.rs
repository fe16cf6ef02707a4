//! Blocks of recognised text: their reading order, which of them are kept,
//! which are headings, where paragraphs end, and the text that they make
//! together.
//!
//! Confidences and font sizes count millionths, line heights thousandths of
//! a pixel.

use vstd::prelude::*;
use crate::block_text::cleaned_block_text;
use crate::markdown_gen::{noise_text, MarkdownGenerator};
use crate::normalize::{append, ends_line, leave_blank_line, with_blank_line};
use crate::sorting::{lemma_stable_order, order_by_key, stable_order};
use crate::text::{string_of, trim_chars, trimmed, trimmed_chars};

verus! {

/// The least confidence with which a block is kept, in millionths.
pub const MIN_CONFIDENCE: u32 = 300_000;

/// A block is a heading when its font is at least this large, in percent
/// of the median font size.
pub const HEADING_FONT_SIZE_PERCENT: u64 = 140;

/// A block is a sub-heading when its font is at least this large, in
/// percent of the median font size.
pub const SUBHEADING_FONT_SIZE_PERCENT: u64 = 120;

/// A paragraph ends where the gap to the next block is larger than this, in
/// percent of the median line height.
pub const PARAGRAPH_GAP_PERCENT: u64 = 150;

/// The line height that is taken where no block has a height, in
/// thousandths of a pixel.
pub const DEFAULT_LINE_HEIGHT: u64 = 20_000;

/// The direction in which a text runs.
#[derive(Debug, Clone, Copy, PartialEq, Eq, Structural)]
pub enum TextDirection {
    /// In lines from left to right.
    Horizontal,
    /// In columns from top to bottom, the columns from right to left.
    Vertical,
    /// Both on one page.
    Mixed,
}

/// A block of recognised text.
#[derive(Debug)]
pub struct TextBlock {
    /// The text.
    pub text: String,
    /// The box of the block: left, top, width, height.
    pub bbox: (u32, u32, u32, u32),
    /// The confidence of the recognition, in millionths.
    pub confidence: u32,
    /// The direction of the text.
    pub direction: TextDirection,
    /// The font size in millionths of a point, if it is known.
    pub font_size: Option<u32>,
}

/// A block with its text as a sequence of characters.
pub struct BlockView {
    pub text: Seq<char>,
    pub bbox: (u32, u32, u32, u32),
    pub confidence: u32,
    pub direction: TextDirection,
    pub font_size: Option<u32>,
}

impl View for TextBlock {
    type V = BlockView;

    open spec fn view(&self) -> BlockView {
        BlockView {
            text: self.text@,
            bbox: self.bbox,
            confidence: self.confidence,
            direction: self.direction,
            font_size: self.font_size,
        }
    }
}

impl Clone for TextBlock {
    fn clone(&self) -> (b: Self)
        ensures
            b == *self,
    {
        TextBlock {
            text: self.text.clone(),
            bbox: self.bbox,
            confidence: self.confidence,
            direction: self.direction,
            font_size: self.font_size,
        }
    }
}

/// The blocks with their texts as sequences.
pub open spec fn views(blocks: Seq<TextBlock>) -> Seq<BlockView> {
    Seq::new(blocks.len(), |i: int| blocks[i]@)
}

/// The key by which a block is put in reading order: for vertical text the
/// columns from right to left and then from top to bottom, for any other
/// text the rows from top to bottom and then from left to right.
pub open spec fn reading_key(bbox: (u32, u32, u32, u32), direction: TextDirection) -> u64 {
    if direction == TextDirection::Vertical {
        ((u32::MAX - bbox.0) * 0x1_0000_0000 + bbox.1) as u64
    } else {
        (bbox.1 * 0x1_0000_0000 + bbox.0) as u64
    }
}

/// The reading key of each block.
pub open spec fn reading_keys(blocks: Seq<BlockView>, direction: TextDirection) -> Seq<u64> {
    Seq::new(blocks.len(), |i: int| reading_key(blocks[i].bbox, direction))
}

/// The blocks in reading order; blocks at one place keep their order.
pub open spec fn in_reading_order(blocks: Seq<BlockView>, direction: TextDirection) -> Seq<
    BlockView,
> {
    let order = stable_order(reading_keys(blocks, direction));
    Seq::new(order.len(), |p: int| blocks[order[p] as int])
}

/// Whether a block is kept: it is recognised with confidence, its text is no
/// noise, and something is left of its text once it is cleaned.
pub open spec fn is_kept(b: BlockView) -> bool {
    b.confidence >= MIN_CONFIDENCE && !noise_text(b.text) && trimmed(
        cleaned_block_text(b.text),
    ).len() > 0
}

/// The block with its text cleaned.
pub open spec fn cleaned(b: BlockView) -> BlockView {
    BlockView {
        text: cleaned_block_text(b.text),
        bbox: b.bbox,
        confidence: b.confidence,
        direction: b.direction,
        font_size: b.font_size,
    }
}

/// The blocks that are kept, with their texts cleaned, in their order.
pub open spec fn kept_blocks(blocks: Seq<BlockView>) -> Seq<BlockView>
    decreases blocks.len(),
{
    if blocks.len() == 0 {
        Seq::empty()
    } else if is_kept(blocks.last()) {
        kept_blocks(blocks.drop_last()).push(cleaned(blocks.last()))
    } else {
        kept_blocks(blocks.drop_last())
    }
}

/// The font sizes of the blocks that have one above zero.
pub open spec fn font_sizes(blocks: Seq<BlockView>) -> Seq<u64>
    decreases blocks.len(),
{
    if blocks.len() == 0 {
        Seq::empty()
    } else {
        match blocks.last().font_size {
            Some(size) => if size > 0 {
                font_sizes(blocks.drop_last()).push(size as u64)
            } else {
                font_sizes(blocks.drop_last())
            },
            None => font_sizes(blocks.drop_last()),
        }
    }
}

/// The heights of the blocks that have one above zero.
pub open spec fn line_heights(blocks: Seq<BlockView>) -> Seq<u64>
    decreases blocks.len(),
{
    if blocks.len() == 0 {
        Seq::empty()
    } else if blocks.last().bbox.3 > 0 {
        line_heights(blocks.drop_last()).push(blocks.last().bbox.3 as u64)
    } else {
        line_heights(blocks.drop_last())
    }
}

/// The values in ascending order.
pub open spec fn ascending(values: Seq<u64>) -> Seq<u64> {
    let order = stable_order(values);
    Seq::new(order.len(), |p: int| values[order[p] as int])
}

/// Twice the median of the values: twice the middle value, or the sum of
/// the two middle values where their number is even.
pub open spec fn doubled_median(values: Seq<u64>) -> int
    recommends
        values.len() > 0,
{
    let sorted = ascending(values);
    let mid = (values.len() / 2) as int;
    if values.len() % 2 == 0 {
        sorted[mid - 1] + sorted[mid]
    } else {
        2 * sorted[mid]
    }
}

/// The median font size of the blocks, rounded down to a millionth of a
/// point; nothing where no block has a font size above zero.
pub open spec fn median_size(blocks: Seq<BlockView>) -> Option<u32> {
    if font_sizes(blocks).len() == 0 {
        None
    } else {
        Some((doubled_median(font_sizes(blocks)) / 2) as u32)
    }
}

/// The median height of the blocks in thousandths of a pixel, and 20 pixels
/// where no block has a height above zero.
pub open spec fn median_height(blocks: Seq<BlockView>) -> u64 {
    if line_heights(blocks).len() == 0 {
        DEFAULT_LINE_HEIGHT
    } else {
        (doubled_median(line_heights(blocks)) * 500) as u64
    }
}

/// The level of the heading that a font size makes against the median: 2
/// from 1.4 times the median on, 3 from 1.2 times the median on.
pub open spec fn heading_level_of(font_size: Option<u32>, median: u32) -> Option<u8> {
    match font_size {
        Some(size) => if 100 * size >= HEADING_FONT_SIZE_PERCENT * median {
            Some(2u8)
        } else if 100 * size >= SUBHEADING_FONT_SIZE_PERCENT * median {
            Some(3u8)
        } else {
            None
        },
        None => None,
    }
}

/// Whether a paragraph ends between two blocks: the second begins below the
/// end of the first by more than 1.5 times the median line height.
pub open spec fn paragraph_gap(previous: BlockView, current: BlockView, median: u64) -> bool {
    current.bbox.1 > previous.bbox.1 + previous.bbox.3 && 2000 * (current.bbox.1 - (
    previous.bbox.1 + previous.bbox.3)) > 3 * median
}

/// What was written, ended with a line feed.
pub open spec fn closed_line(result: Seq<char>) -> Seq<char> {
    if ends_line(result) {
        result
    } else {
        result.push('\n')
    }
}

/// The text after the block at `i` is written behind what was written for
/// the blocks before it: a line feed parts it from them, and a blank line
/// where a paragraph ends; a heading stands after a blank line and behind
/// its mark.
pub open spec fn with_block(
    result: Seq<char>,
    blocks: Seq<BlockView>,
    i: int,
    median_size: Option<u32>,
    median_height: u64,
) -> Seq<char> {
    let spaced = if i <= 0 {
        result
    } else if paragraph_gap(blocks[i - 1], blocks[i], median_height) {
        closed_line(result).push('\n')
    } else {
        result.push('\n')
    };
    let level = match median_size {
        Some(median) => heading_level_of(blocks[i].font_size, median),
        None => None,
    };
    if level == Some(2u8) {
        with_blank_line(spaced) + seq!['#', '#', ' '] + trimmed(blocks[i].text)
    } else if level == Some(3u8) {
        with_blank_line(spaced) + seq!['#', '#', '#', ' '] + trimmed(blocks[i].text)
    } else {
        spaced + trimmed(blocks[i].text)
    }
}

/// The text of the first `k` blocks.
pub open spec fn formatted_upto(
    blocks: Seq<BlockView>,
    k: int,
    median_size: Option<u32>,
    median_height: u64,
) -> Seq<char>
    decreases k,
{
    if k <= 0 {
        Seq::empty()
    } else {
        with_block(
            formatted_upto(blocks, k - 1, median_size, median_height),
            blocks,
            k - 1,
            median_size,
            median_height,
        )
    }
}

/// The text of a group of blocks.
pub open spec fn formatted_group(
    blocks: Seq<BlockView>,
    median_size: Option<u32>,
    median_height: u64,
) -> Seq<char> {
    formatted_upto(blocks, blocks.len() as int, median_size, median_height)
}

/// The text that blocks make together: the blocks that are kept, in reading
/// order, with headings and paragraphs told by their own medians.
pub open spec fn structured_text(blocks: Seq<BlockView>, direction: TextDirection) -> Seq<char> {
    let sorted = in_reading_order(kept_blocks(blocks), direction);
    formatted_group(sorted, median_size(sorted), median_height(sorted))
}

/// The key by which a block is put in reading order.
pub fn reading_key_of(bbox: (u32, u32, u32, u32), direction: TextDirection) -> (key: u64)
    ensures
        key == reading_key(bbox, direction),
{
    if direction == TextDirection::Vertical {
        (u32::MAX - bbox.0) as u64 * 0x1_0000_0000 + bbox.1 as u64
    } else {
        bbox.1 as u64 * 0x1_0000_0000 + bbox.0 as u64
    }
}

/// Twice the median of the values.
pub fn doubled_median_of(values: &Vec<u64>) -> (median: u128)
    requires
        values.len() > 0,
    ensures
        median == doubled_median(values@),
{
    let order = order_by_key(values);
    let n: usize = values.len();
    let mid: usize = n / 2;
    if n % 2 == 0 {
        values[order[mid - 1]] as u128 + values[order[mid]] as u128
    } else {
        2 * values[order[mid]] as u128
    }
}

/// The extremes of a median: twice the median of values of 32 bits has 33
/// bits at most.
pub proof fn lemma_doubled_median_bounded(values: Seq<u64>)
    requires
        0 < values.len() <= usize::MAX,
        forall|i: int| 0 <= i < values.len() ==> #[trigger] values[i] <= u32::MAX,
    ensures
        0 <= doubled_median(values) <= 2 * u32::MAX,
{
    lemma_stable_order(values);
    let order = stable_order(values);
    let mid = (values.len() / 2) as int;
    assert(0 <= order[mid] < values.len());
    if values.len() % 2 == 0 {
        assert(0 <= order[mid - 1] < values.len());
    }
}

/// The font sizes and the heights of blocks have 32 bits, and are no more
/// than the blocks.
pub proof fn lemma_sizes_bounded(blocks: Seq<BlockView>)
    ensures
        font_sizes(blocks).len() <= blocks.len(),
        line_heights(blocks).len() <= blocks.len(),
        forall|i: int|
            0 <= i < font_sizes(blocks).len() ==> #[trigger] font_sizes(blocks)[i] <= u32::MAX,
        forall|i: int|
            0 <= i < line_heights(blocks).len() ==> #[trigger] line_heights(blocks)[i]
                <= u32::MAX,
    decreases blocks.len(),
{
    if blocks.len() > 0 {
        lemma_sizes_bounded(blocks.drop_last());
    }
}

impl MarkdownGenerator {
    /// The blocks in reading order: for vertical text the columns from
    /// right to left and each column from top to bottom, for any other text
    /// the rows from top to bottom and each row from left to right. Blocks
    /// at one place keep their order.
    pub fn sort_text_blocks(blocks: &[TextBlock], direction: &TextDirection) -> (sorted: Vec<
        TextBlock,
    >)
        ensures
            views(sorted@) == in_reading_order(views(blocks@), *direction),
    {
        let n: usize = blocks.len();
        let ghost wanted = in_reading_order(views(blocks@), *direction);
        let mut keys: Vec<u64> = Vec::new();
        let mut i: usize = 0;
        while i < n
            invariant
                i <= n == blocks.len(),
                keys@ == reading_keys(views(blocks@), *direction).take(i as int),
            decreases n - i,
        {
            keys.push(reading_key_of(blocks[i].bbox, *direction));
            assert(keys@ =~= reading_keys(views(blocks@), *direction).take(i as int + 1));
            i += 1;
        }
        assert(reading_keys(views(blocks@), *direction).take(n as int) =~= reading_keys(
            views(blocks@),
            *direction,
        ));
        let order = order_by_key(&keys);
        let mut sorted: Vec<TextBlock> = Vec::new();
        let mut p: usize = 0;
        while p < n
            invariant
                p <= n == blocks.len(),
                order@ == stable_order(reading_keys(views(blocks@), *direction)),
                order.len() == n,
                forall|q: int| 0 <= q < order.len() ==> 0 <= #[trigger] order@[q] < n,
                wanted == in_reading_order(views(blocks@), *direction),
                views(sorted@) == wanted.take(p as int),
            decreases n - p,
        {
            let ghost before = views(sorted@);
            let block = blocks[order[p]].clone();
            assert(block@ == wanted[p as int]);
            sorted.push(block);
            assert(views(sorted@) =~= before.push(block@));
            assert(before.push(block@) =~= wanted.take(p as int + 1));
            p += 1;
        }
        assert(wanted.take(n as int) =~= wanted);
        sorted
    }

    /// The blocks that are kept, with their texts cleaned: those recognised
    /// with a confidence of three tenths or more whose text is no noise and
    /// is not blank once it is cleaned.
    pub fn filter_low_confidence(blocks: &[TextBlock]) -> (kept: Vec<TextBlock>)
        ensures
            views(kept@) == kept_blocks(views(blocks@)),
    {
        let n: usize = blocks.len();
        let mut kept: Vec<TextBlock> = Vec::new();
        let mut i: usize = 0;
        assert(views(blocks@).take(0) =~= Seq::<BlockView>::empty());
        assert(views(kept@) =~= Seq::<BlockView>::empty());
        while i < n
            invariant
                i <= n == blocks.len(),
                views(kept@) == kept_blocks(views(blocks@).take(i as int)),
            decreases n - i,
        {
            let b = &blocks[i];
            proof {
                let longer = views(blocks@).take(i as int + 1);
                assert(longer.drop_last() =~= views(blocks@).take(i as int));
                assert(longer.last() == b@);
            }
            if b.confidence >= MIN_CONFIDENCE && !Self::is_noise_text(b.text.as_str()) {
                let text = Self::clean_block_text(b.text.as_str());
                let left = trimmed_chars(text.as_str());
                if left.len() > 0 {
                    let ghost before = views(kept@);
                    kept.push(
                        TextBlock {
                            text,
                            bbox: b.bbox,
                            confidence: b.confidence,
                            direction: b.direction,
                            font_size: b.font_size,
                        },
                    );
                    assert(views(kept@) =~= before.push(cleaned(b@)));
                }
            }
            i += 1;
        }
        assert(views(blocks@).take(n as int) =~= views(blocks@));
        kept
    }

    /// The median font size of the blocks, in millionths of a point.
    pub fn median_font_size(blocks: &[TextBlock]) -> (median: Option<u32>)
        ensures
            median == median_size(views(blocks@)),
    {
        let n: usize = blocks.len();
        let mut sizes: Vec<u64> = Vec::new();
        let mut i: usize = 0;
        assert(views(blocks@).take(0) =~= Seq::<BlockView>::empty());
        while i < n
            invariant
                i <= n == blocks.len(),
                sizes@ == font_sizes(views(blocks@).take(i as int)),
            decreases n - i,
        {
            proof {
                let longer = views(blocks@).take(i as int + 1);
                assert(longer.drop_last() =~= views(blocks@).take(i as int));
                assert(longer.last() == blocks@[i as int]@);
            }
            match blocks[i].font_size {
                Some(size) => {
                    if size > 0 {
                        sizes.push(size as u64);
                    }
                },
                None => {},
            }
            i += 1;
        }
        assert(views(blocks@).take(n as int) =~= views(blocks@));
        if sizes.len() == 0 {
            return None;
        }
        proof {
            lemma_sizes_bounded(views(blocks@));
            lemma_doubled_median_bounded(sizes@);
        }
        Some((doubled_median_of(&sizes) / 2) as u32)
    }

    /// The level of the heading that a block makes against the median font
    /// size: 2 for a heading, 3 for a sub-heading, nothing for body text.
    pub fn heading_level(block: &TextBlock, median_size: u32) -> (level: Option<u8>)
        ensures
            level == heading_level_of(block.font_size, median_size),
    {
        match block.font_size {
            Some(size) => {
                if 100 * size as u64 >= HEADING_FONT_SIZE_PERCENT * median_size as u64 {
                    Some(2)
                } else if 100 * size as u64 >= SUBHEADING_FONT_SIZE_PERCENT * median_size as u64 {
                    Some(3)
                } else {
                    None
                }
            },
            None => None,
        }
    }

    /// The median height of the blocks, in thousandths of a pixel.
    pub fn median_line_height(blocks: &[TextBlock]) -> (median: u64)
        ensures
            median == median_height(views(blocks@)),
    {
        let n: usize = blocks.len();
        let mut heights: Vec<u64> = Vec::new();
        let mut i: usize = 0;
        assert(views(blocks@).take(0) =~= Seq::<BlockView>::empty());
        while i < n
            invariant
                i <= n == blocks.len(),
                heights@ == line_heights(views(blocks@).take(i as int)),
            decreases n - i,
        {
            proof {
                let longer = views(blocks@).take(i as int + 1);
                assert(longer.drop_last() =~= views(blocks@).take(i as int));
                assert(longer.last() == blocks@[i as int]@);
            }
            if blocks[i].bbox.3 > 0 {
                heights.push(blocks[i].bbox.3 as u64);
            }
            i += 1;
        }
        assert(views(blocks@).take(n as int) =~= views(blocks@));
        if heights.len() == 0 {
            return DEFAULT_LINE_HEIGHT;
        }
        proof {
            lemma_sizes_bounded(views(blocks@));
            lemma_doubled_median_bounded(heights@);
        }
        (doubled_median_of(&heights) * 500) as u64
    }

    /// Whether a paragraph ends between two blocks.
    pub fn is_paragraph_gap(previous: &TextBlock, current: &TextBlock, median_height: u64) -> (gap:
        bool)
        ensures
            gap == paragraph_gap(previous@, current@, median_height),
    {
        let bottom: u64 = previous.bbox.1 as u64 + previous.bbox.3 as u64;
        let top: u64 = current.bbox.1 as u64;
        if top > bottom {
            2000 * (top - bottom) as u128 > 3 * median_height as u128
        } else {
            false
        }
    }

    /// The text of a group of blocks: one block to a line, a blank line
    /// where a paragraph ends, and headings behind their marks.
    pub fn format_block_group(
        blocks: &[TextBlock],
        median_size: Option<u32>,
        median_height: u64,
    ) -> (text: String)
        ensures
            text@ == formatted_group(views(blocks@), median_size, median_height),
    {
        let n: usize = blocks.len();
        let mut result: Vec<char> = Vec::new();
        let mut i: usize = 0;
        while i < n
            invariant
                i <= n == blocks.len(),
                result@ == formatted_upto(views(blocks@), i as int, median_size, median_height),
            decreases n - i,
        {
            write_block(&mut result, blocks, i, median_size, median_height);
            i += 1;
        }
        assert(result@.subrange(0, result.len() as int) =~= result@);
        string_of(&result, 0, result.len())
    }

    /// The text that blocks make together: the blocks that are kept are put
    /// in reading order and written one to a line, with headings and
    /// paragraphs told by the medians of their font sizes and heights.
    pub fn build_structured_text(blocks: &[TextBlock], direction: &TextDirection) -> (text: String)
        ensures
            text@ == structured_text(views(blocks@), *direction),
    {
        let filtered = Self::filter_low_confidence(blocks);
        let sorted = Self::sort_text_blocks(filtered.as_slice(), direction);
        let median_size = Self::median_font_size(sorted.as_slice());
        let median_height = Self::median_line_height(sorted.as_slice());
        Self::format_block_group(sorted.as_slice(), median_size, median_height)
    }

    /// The text that blocks make together.
    pub fn sort_and_join_text_blocks(blocks: &[TextBlock], direction: &TextDirection) -> (text:
        String)
        ensures
            text@ == structured_text(views(blocks@), *direction),
    {
        Self::build_structured_text(blocks, direction)
    }
}

/// Writes the block at `i` behind what was written for the blocks before
/// it.
fn write_block(
    result: &mut Vec<char>,
    blocks: &[TextBlock],
    i: usize,
    median_size: Option<u32>,
    median_height: u64,
)
    requires
        i < blocks.len(),
    ensures
        final(result)@ == with_block(old(result)@, views(blocks@), i as int, median_size, median_height),
{
    let block = &blocks[i];
    if i > 0 {
        if MarkdownGenerator::is_paragraph_gap(&blocks[i - 1], block, median_height) {
            let m: usize = result.len();
            if !(m > 0 && result[m - 1] == '\n') {
                result.push('\n');
            }
            result.push('\n');
        } else {
            result.push('\n');
        }
    }
    let level = match median_size {
        Some(median) => MarkdownGenerator::heading_level(block, median),
        None => None,
    };
    let text = trimmed_chars(block.text.as_str());
    let ghost spaced = result@;
    match level {
        Some(2) => {
            leave_blank_line(result);
            result.push('#');
            result.push('#');
            result.push(' ');
            append(result, &text);
            assert(result@ =~= with_blank_line(spaced) + seq!['#', '#', ' '] + text@);
        },
        Some(3) => {
            leave_blank_line(result);
            result.push('#');
            result.push('#');
            result.push('#');
            result.push(' ');
            append(result, &text);
            assert(result@ =~= with_blank_line(spaced) + seq!['#', '#', '#', ' '] + text@);
        },
        _ => {
            append(result, &text);
        },
    }
}

} // verus!
