//! The content of a page and the Markdown that is written for it.
//!
//! The path of an image is held as the text by which the Markdown names it.

use vstd::prelude::*;
use std::path::PathBuf;
use crate::figure_detect::{FigureRegion, PageClassification};
use crate::markdown_gen::MarkdownGenerator;
use crate::normalize::{append, normalize_chars, normalized};
use crate::text::{
    chars_of, decimal_chars, decimal_digits, lemma_decimal_digits_value, string_of, trim_chars,
    trimmed,
};
use crate::text_blocks::{
    formatted_group, in_reading_order, kept_blocks, median_height, median_size, structured_text,
    views, BlockView, TextBlock, TextDirection,
};

verus! {

/// What can go wrong while a book is written out.
#[derive(Debug)]
pub enum MarkdownGenError {
    /// Reading or writing failed.
    IoError(std::io::Error),
    /// The output directory cannot be written to.
    OutputNotWritable(PathBuf),
    /// The Markdown could not be made.
    GenerationError(String),
}

impl From<std::io::Error> for MarkdownGenError {
    fn from(e: std::io::Error) -> (r: Self) {
        MarkdownGenError::IoError(e)
    }
}

impl vstd::std_specs::convert::FromSpecImpl<std::io::Error> for MarkdownGenError {
    open spec fn obeys_from_spec() -> bool {
        true
    }

    open spec fn from_spec(e: std::io::Error) -> Self {
        MarkdownGenError::IoError(e)
    }
}

/// What recognition found on a page.
#[derive(Debug)]
pub struct OcrResult {
    /// The image that was read.
    pub input_path: PathBuf,
    /// The blocks of text.
    pub text_blocks: Vec<TextBlock>,
    /// The confidence of the recognition, in millionths.
    pub confidence: u32,
    /// The time that recognition took.
    pub processing_time: std::time::Duration,
    /// The direction in which the text of the page runs.
    pub text_direction: TextDirection,
}

/// The duration of the given number of seconds, as `Duration::from_secs`
/// gives it.
pub uninterp spec fn seconds(secs: u64) -> std::time::Duration;

/// Calls `Duration::from_secs`; the result is the named duration.
#[verifier::external_body]
fn duration_of_seconds(secs: u64) -> (d: std::time::Duration)
    ensures
        d == seconds(secs),
{
    std::time::Duration::from_secs(secs)
}

impl OcrResult {
    /// What stands for the recognition of an image where there is none: no
    /// text, no confidence, no time, and vertical text.
    pub fn empty(input_path: PathBuf) -> (r: Self)
        ensures
            r.input_path == input_path,
            r.text_blocks@.len() == 0,
            r.confidence == 0,
            r.processing_time == seconds(0),
            r.text_direction == TextDirection::Vertical,
    {
        OcrResult {
            input_path,
            text_blocks: Vec::new(),
            confidence: 0,
            processing_time: duration_of_seconds(0),
            text_direction: TextDirection::Vertical,
        }
    }
}

/// One element of a page.
#[derive(Debug)]
pub enum ContentElement {
    /// Text, with the direction in which it runs.
    Text { content: String, direction: TextDirection },
    /// A figure, with its caption if it has one.
    Figure { image_path: String, caption: Option<String> },
    /// An image that fills the page: a cover or an illustration.
    FullPageImage { image_path: String },
    /// The end of the page.
    PageBreak,
}

/// An element with its texts as sequences of characters.
pub enum ElementView {
    Text { content: Seq<char>, direction: TextDirection },
    Figure { image_path: Seq<char>, caption: Option<Seq<char>> },
    FullPageImage { image_path: Seq<char> },
    PageBreak,
}

impl View for ContentElement {
    type V = ElementView;

    open spec fn view(&self) -> ElementView {
        match *self {
            ContentElement::Text { content, direction } => ElementView::Text {
                content: content@,
                direction,
            },
            ContentElement::Figure { image_path, caption } => ElementView::Figure {
                image_path: image_path@,
                caption: match caption {
                    Some(text) => Some(text@),
                    None => None,
                },
            },
            ContentElement::FullPageImage { image_path } => ElementView::FullPageImage {
                image_path: image_path@,
            },
            ContentElement::PageBreak => ElementView::PageBreak,
        }
    }
}

impl Clone for ContentElement {
    fn clone(&self) -> (e: Self)
        ensures
            e@ == self@,
    {
        match self {
            ContentElement::Text { content, direction } => ContentElement::Text {
                content: content.clone(),
                direction: *direction,
            },
            ContentElement::Figure { image_path, caption } => ContentElement::Figure {
                image_path: image_path.clone(),
                caption: match caption {
                    Some(text) => Some(text.clone()),
                    None => None,
                },
            },
            ContentElement::FullPageImage { image_path } => ContentElement::FullPageImage {
                image_path: image_path.clone(),
            },
            ContentElement::PageBreak => ContentElement::PageBreak,
        }
    }
}

/// The content of a page.
#[derive(Debug)]
pub struct PageContent {
    /// The page's position in the book, counted from 0.
    pub page_index: usize,
    /// The elements of the page, from top to bottom.
    pub elements: Vec<ContentElement>,
}

/// The elements with their texts as sequences.
pub open spec fn element_views(elements: Seq<ContentElement>) -> Seq<ElementView> {
    Seq::new(elements.len(), |i: int| elements[i]@)
}

/// The parts of `s` between blank lines, where `current` holds the
/// beginning of the first part: a part ends where two line feeds follow one
/// another.
pub open spec fn paragraphs_from(s: Seq<char>, current: Seq<char>) -> Seq<Seq<char>>
    decreases s.len(),
{
    if s.len() == 0 {
        seq![current]
    } else if s.len() >= 2 && s[0] == '\n' && s[1] == '\n' {
        seq![current] + paragraphs_from(s.skip(2), Seq::empty())
    } else {
        paragraphs_from(s.drop_first(), current.push(s[0]))
    }
}

/// A paragraph as it is written: trimmed and ended with a blank line, and
/// nothing where it is blank.
pub open spec fn written_paragraph(paragraph: Seq<char>) -> Seq<char> {
    if trimmed(paragraph).len() == 0 {
        Seq::empty()
    } else {
        trimmed(paragraph) + seq!['\n', '\n']
    }
}

/// Paragraphs as they are written, one after another.
pub open spec fn written_paragraphs(paragraphs: Seq<Seq<char>>) -> Seq<char>
    decreases paragraphs.len(),
{
    if paragraphs.len() == 0 {
        Seq::empty()
    } else {
        written_paragraph(paragraphs.first()) + written_paragraphs(paragraphs.drop_first())
    }
}

/// The reference to an image with the given caption.
pub open spec fn image_reference(caption: Seq<char>, path: Seq<char>) -> Seq<char> {
    seq!['!', '['] + caption + seq![']', '('] + path + seq![')', '\n', '\n']
}

/// An element as it is written: the paragraphs of a text, the reference to
/// an image, or a rule for the end of the page.
pub open spec fn rendered_element(element: ElementView) -> Seq<char> {
    match element {
        ElementView::Text { content, direction } => written_paragraphs(
            paragraphs_from(content, Seq::empty()),
        ),
        ElementView::Figure { image_path, caption } => match caption {
            Some(text) => image_reference(text, image_path),
            None => image_reference(seq!['図'], image_path),
        },
        ElementView::FullPageImage { image_path } => image_reference(Seq::empty(), image_path),
        ElementView::PageBreak => seq!['-', '-', '-', '\n', '\n'],
    }
}

/// Elements as they are written, one after another.
pub open spec fn rendered(elements: Seq<ElementView>) -> Seq<char>
    decreases elements.len(),
{
    if elements.len() == 0 {
        Seq::empty()
    } else {
        rendered(elements.drop_last()) + rendered_element(elements.last())
    }
}

/// The Markdown of a page: its elements as they are written, tidied.
pub open spec fn page_markdown(elements: Seq<ElementView>) -> Seq<char> {
    normalized(rendered(elements))
}

/// The digits of `n`, with zeros before them up to three digits.
pub open spec fn three_digits(n: nat) -> Seq<char> {
    let digits = decimal_digits(n);
    if digits.len() >= 3 {
        digits
    } else if digits.len() == 2 {
        seq!['0'] + digits
    } else {
        seq!['0', '0'] + digits
    }
}

/// The name of the image of a cover.
pub open spec fn cover_name(page_index: usize) -> Seq<char> {
    seq!['c', 'o', 'v', 'e', 'r', '_'] + three_digits((page_index + 1) as nat) + seq![
        '.',
        'p',
        'n',
        'g',
    ]
}

/// The name of the image of a page that is an image as a whole.
pub open spec fn full_page_name(page_index: usize) -> Seq<char> {
    seq!['p', 'a', 'g', 'e', '_'] + three_digits((page_index + 1) as nat) + seq![
        '_',
        'f',
        'u',
        'l',
        'l',
        '.',
        'p',
        'n',
        'g',
    ]
}

/// The state of putting text and figures in their order down the page.
pub struct Interleaving {
    /// The elements made so far.
    pub elements: Seq<ElementView>,
    /// The number of figures that were placed.
    pub placed: int,
    /// The blocks of text since the last figure.
    pub group: Seq<BlockView>,
}

/// The elements once the blocks gathered since the last figure are written
/// as one text; blocks that make no text leave no element.
pub open spec fn flushed(
    elements: Seq<ElementView>,
    group: Seq<BlockView>,
    median_size: Option<u32>,
    median_height: u64,
    direction: TextDirection,
) -> Seq<ElementView> {
    if group.len() > 0 && formatted_group(group, median_size, median_height).len() > 0 {
        elements.push(
            ElementView::Text {
                content: formatted_group(group, median_size, median_height),
                direction,
            },
        )
    } else {
        elements
    }
}

/// The elements with the figure at `at` behind them, where it has an image.
pub open spec fn with_figure(
    elements: Seq<ElementView>,
    paths: Seq<Seq<char>>,
    at: int,
) -> Seq<ElementView> {
    if 0 <= at < paths.len() {
        elements.push(ElementView::Figure { image_path: paths[at], caption: None })
    } else {
        elements
    }
}

/// The state once every figure that begins above `top` is placed: before
/// each of them the blocks gathered so far are written.
pub open spec fn figures_above(
    state: Interleaving,
    tops: Seq<u32>,
    paths: Seq<Seq<char>>,
    top: u32,
    median_size: Option<u32>,
    median_height: u64,
    direction: TextDirection,
) -> Interleaving
    decreases tops.len() - state.placed,
{
    if 0 <= state.placed < tops.len() && tops[state.placed] < top {
        figures_above(
            Interleaving {
                elements: with_figure(
                    flushed(state.elements, state.group, median_size, median_height, direction),
                    paths,
                    state.placed,
                ),
                placed: state.placed + 1,
                group: Seq::empty(),
            },
            tops,
            paths,
            top,
            median_size,
            median_height,
            direction,
        )
    } else {
        state
    }
}

/// The state after the first `k` blocks: each block follows the figures
/// that begin above it.
pub open spec fn interleaved_upto(
    blocks: Seq<BlockView>,
    k: int,
    tops: Seq<u32>,
    paths: Seq<Seq<char>>,
    median_size: Option<u32>,
    median_height: u64,
    direction: TextDirection,
) -> Interleaving
    decreases k,
{
    if k <= 0 {
        Interleaving { elements: Seq::empty(), placed: 0, group: Seq::empty() }
    } else {
        let before = figures_above(
            interleaved_upto(blocks, k - 1, tops, paths, median_size, median_height, direction),
            tops,
            paths,
            blocks[k - 1].bbox.1,
            median_size,
            median_height,
            direction,
        );
        Interleaving {
            elements: before.elements,
            placed: before.placed,
            group: before.group.push(blocks[k - 1]),
        }
    }
}

/// The elements with the figures from `placed` on behind them.
pub open spec fn with_figures_from(
    elements: Seq<ElementView>,
    count: int,
    paths: Seq<Seq<char>>,
    placed: int,
) -> Seq<ElementView>
    decreases count - placed,
{
    if placed < 0 || placed >= count {
        elements
    } else {
        with_figures_from(with_figure(elements, paths, placed), count, paths, placed + 1)
    }
}

/// The elements of a page of text and figures: the blocks in reading order,
/// each behind the figures that begin above it, the blocks between figures
/// written as one text, and the figures that are left at the end.
pub open spec fn mixed_elements(
    blocks: Seq<BlockView>,
    tops: Seq<u32>,
    paths: Seq<Seq<char>>,
    direction: TextDirection,
) -> Seq<ElementView> {
    let sorted = in_reading_order(kept_blocks(blocks), direction);
    let size = median_size(sorted);
    let height = median_height(sorted);
    let state = interleaved_upto(sorted, sorted.len() as int, tops, paths, size, height, direction);
    with_figures_from(
        flushed(state.elements, state.group, size, height, direction),
        tops.len() as int,
        paths,
        state.placed,
    )
}

/// The top of each figure.
pub open spec fn figure_tops(figures: Seq<FigureRegion>) -> Seq<u32> {
    Seq::new(figures.len(), |i: int| figures[i].bbox.1)
}

/// The path of each image.
pub open spec fn image_paths(figure_images: Seq<(FigureRegion, String)>) -> Seq<Seq<char>> {
    Seq::new(figure_images.len(), |i: int| figure_images[i].1@)
}

/// The elements of a page before its end: for a cover and for a page that
/// is an image as a whole, the image; for a page of text, its text where it
/// has any; for a page of text and figures, both in their order.
pub open spec fn body_elements(
    page_index: usize,
    blocks: Seq<BlockView>,
    direction: TextDirection,
    classification: PageClassification,
    paths: Seq<Seq<char>>,
    images_prefix: Seq<char>,
) -> Seq<ElementView> {
    match classification {
        PageClassification::Cover => seq![
            ElementView::FullPageImage { image_path: images_prefix + cover_name(page_index) },
        ],
        PageClassification::FullPageImage => seq![
            ElementView::FullPageImage { image_path: images_prefix + full_page_name(page_index) },
        ],
        PageClassification::TextOnly => if structured_text(blocks, direction).len() > 0 {
            seq![ElementView::Text { content: structured_text(blocks, direction), direction }]
        } else {
            Seq::empty()
        },
        PageClassification::Mixed { figures } => mixed_elements(
            blocks,
            figure_tops(figures@),
            paths,
            direction,
        ),
    }
}

/// The digits of `n`, with zeros before them up to three digits.
pub fn three_digit_chars(n: u128) -> (digits: Vec<char>)
    ensures
        digits@ == three_digits(n as nat),
{
    let plain = decimal_chars(n);
    let mut digits: Vec<char> = Vec::new();
    if plain.len() < 3 {
        digits.push('0');
    }
    if plain.len() < 2 {
        digits.push('0');
    }
    append(&mut digits, &plain);
    proof {
        assert(plain@.len() > 0) by {
            lemma_decimal_digits_value(n as nat);
        }
        assert(digits@ =~= three_digits(n as nat));
    }
    digits
}

/// The path of an image: the prefix, the first part of the name, the number
/// of the page in three digits, and the last part of the name.
fn image_path_for(images_prefix: &str, first: &str, page_index: usize, last: &str) -> (path: String)
    ensures
        path@ == images_prefix@ + first@ + three_digits((page_index + 1) as nat) + last@,
{
    let mut chars = chars_of(images_prefix);
    let first_chars = chars_of(first);
    append(&mut chars, &first_chars);
    let number = three_digit_chars(page_index as u128 + 1);
    append(&mut chars, &number);
    let last_chars = chars_of(last);
    append(&mut chars, &last_chars);
    assert(chars@.subrange(0, chars.len() as int) =~= chars@);
    string_of(&chars, 0, chars.len())
}

/// Writes the blocks gathered since the last figure as one text.
fn flush_group(
    elements: &mut Vec<ContentElement>,
    group: &Vec<TextBlock>,
    median_size: Option<u32>,
    median_height: u64,
    direction: TextDirection,
)
    ensures
        element_views(final(elements)@) == flushed(
            element_views(old(elements)@),
            views(group@),
            median_size,
            median_height,
            direction,
        ),
{
    if group.len() > 0 {
        let text = MarkdownGenerator::format_block_group(
            group.as_slice(),
            median_size,
            median_height,
        );
        if !text.as_str().is_empty() {
            let ghost before = element_views(elements@);
            let element = ContentElement::Text { content: text, direction };
            elements.push(element);
            assert(element_views(elements@) =~= before.push(element@));
            return;
        }
    }
    assert(element_views(elements@) =~= element_views(old(elements)@));
}

/// Puts the figure at `at` behind the elements, where it has an image.
fn place_figure(
    elements: &mut Vec<ContentElement>,
    figure_images: &[(FigureRegion, String)],
    at: usize,
)
    ensures
        element_views(final(elements)@) == with_figure(
            element_views(old(elements)@),
            image_paths(figure_images@),
            at as int,
        ),
{
    if at < figure_images.len() {
        let ghost before = element_views(elements@);
        let element = ContentElement::Figure {
            image_path: figure_images[at].1.clone(),
            caption: None,
        };
        elements.push(element);
        assert(element_views(elements@) =~= before.push(element@));
    } else {
        assert(element_views(elements@) =~= element_views(old(elements)@));
    }
}

impl MarkdownGenerator {
    /// The Markdown of a page.
    pub fn generate_page_markdown(&self, page_content: &PageContent) -> (r: Result<
        String,
        MarkdownGenError,
    >)
        ensures
            r matches Ok(markdown) && markdown@ == page_markdown(
                element_views(page_content.elements@),
            ),
    {
        let n: usize = page_content.elements.len();
        let ghost wanted = element_views(page_content.elements@);
        let mut md: Vec<char> = Vec::new();
        let mut i: usize = 0;
        assert(wanted.take(0) =~= Seq::<ElementView>::empty());
        while i < n
            invariant
                i <= n == page_content.elements.len(),
                wanted == element_views(page_content.elements@),
                md@ == rendered(wanted.take(i as int)),
            decreases n - i,
        {
            proof {
                let longer = wanted.take(i as int + 1);
                assert(longer.drop_last() =~= wanted.take(i as int));
                assert(longer.last() == page_content.elements@[i as int]@);
            }
            let ghost before = md@;
            match &page_content.elements[i] {
                ContentElement::Text { content, direction } => {
                    write_paragraphs(&mut md, content.as_str());
                },
                ContentElement::Figure { image_path, caption } => {
                    match caption {
                        Some(text) => write_reference(&mut md, text.as_str(), image_path.as_str()),
                        None => {
                            proof {
                                reveal_strlit("図");
                            }
                            assert("図"@ =~= seq!['図']);
                            write_reference(&mut md, "図", image_path.as_str())
                        },
                    }
                },
                ContentElement::FullPageImage { image_path } => {
                    proof {
                        reveal_strlit("");
                    }
                    assert(""@ =~= Seq::<char>::empty());
                    write_reference(&mut md, "", image_path.as_str());
                },
                ContentElement::PageBreak => {
                    md.push('-');
                    md.push('-');
                    md.push('-');
                    md.push('\n');
                    md.push('\n');
                    assert(md@ =~= before + seq!['-', '-', '-', '\n', '\n']);
                },
            }
            i += 1;
        }
        assert(wanted.take(n as int) =~= wanted);
        let tidy = normalize_chars(&md);
        assert(tidy@.subrange(0, tidy.len() as int) =~= tidy@);
        Ok(string_of(&tidy, 0, tidy.len()))
    }

    /// The content of a page, made of what recognition found on it, of what
    /// the page is, and of the images of its figures. The paths of the
    /// images of covers and of whole pages begin with `images_prefix`.
    pub fn build_page_content(
        &self,
        page_index: usize,
        ocr_result: &OcrResult,
        classification: &PageClassification,
        figure_images: &[(FigureRegion, String)],
        images_prefix: &str,
    ) -> (content: PageContent)
        ensures
            content.page_index == page_index,
            element_views(content.elements@) == body_elements(
                page_index,
                views(ocr_result.text_blocks@),
                ocr_result.text_direction,
                *classification,
                image_paths(figure_images@),
                images_prefix@,
            ).push(ElementView::PageBreak),
    {
        let direction = ocr_result.text_direction;
        let mut elements: Vec<ContentElement> = Vec::new();
        assert(element_views(elements@) =~= Seq::<ElementView>::empty());
        match classification {
            PageClassification::Cover => {
                proof {
                    reveal_strlit("cover_");
                    reveal_strlit(".png");
                }
                assert("cover_"@ =~= seq!['c', 'o', 'v', 'e', 'r', '_']);
                assert(".png"@ =~= seq!['.', 'p', 'n', 'g']);
                let path = image_path_for(images_prefix, "cover_", page_index, ".png");
                assert(path@ =~= images_prefix@ + cover_name(page_index));
                let element = ContentElement::FullPageImage { image_path: path };
                elements.push(element);
                assert(element_views(elements@) =~= seq![element@]);
            },
            PageClassification::FullPageImage => {
                proof {
                    reveal_strlit("page_");
                    reveal_strlit("_full.png");
                }
                assert("page_"@ =~= seq!['p', 'a', 'g', 'e', '_']);
                assert("_full.png"@ =~= seq!['_', 'f', 'u', 'l', 'l', '.', 'p', 'n', 'g']);
                let path = image_path_for(images_prefix, "page_", page_index, "_full.png");
                assert(path@ =~= images_prefix@ + full_page_name(page_index));
                let element = ContentElement::FullPageImage { image_path: path };
                elements.push(element);
                assert(element_views(elements@) =~= seq![element@]);
            },
            PageClassification::TextOnly => {
                let text = Self::sort_and_join_text_blocks(
                    ocr_result.text_blocks.as_slice(),
                    &direction,
                );
                if !text.as_str().is_empty() {
                    let element = ContentElement::Text { content: text, direction };
                    elements.push(element);
                    assert(element_views(elements@) =~= seq![element@]);
                }
            },
            PageClassification::Mixed { figures } => {
                let filtered = Self::filter_low_confidence(ocr_result.text_blocks.as_slice());
                let sorted = Self::sort_text_blocks(filtered.as_slice(), &direction);
                let size = Self::median_font_size(sorted.as_slice());
                let height = Self::median_line_height(sorted.as_slice());
                let ghost tops = figure_tops(figures@);
                let ghost paths = image_paths(figure_images@);
                let n: usize = sorted.len();
                let mut placed: usize = 0;
                let mut group: Vec<TextBlock> = Vec::new();
                let mut i: usize = 0;
                assert(views(group@) =~= Seq::<BlockView>::empty());
                while i < n
                    invariant
                        i <= n == sorted.len(),
                        placed <= figures.len(),
                        tops == figure_tops(figures@),
                        paths == image_paths(figure_images@),
                        interleaved_upto(
                            views(sorted@),
                            i as int,
                            tops,
                            paths,
                            size,
                            height,
                            direction,
                        ) == (Interleaving {
                            elements: element_views(elements@),
                            placed: placed as int,
                            group: views(group@),
                        }),
                    decreases n - i,
                {
                    let top: u32 = sorted[i].bbox.1;
                    let ghost start = Interleaving {
                        elements: element_views(elements@),
                        placed: placed as int,
                        group: views(group@),
                    };
                    while placed < figures.len() && figures[placed].bbox.1 < top
                        invariant
                            placed <= figures.len(),
                            tops == figure_tops(figures@),
                            paths == image_paths(figure_images@),
                            figures_above(start, tops, paths, top, size, height, direction)
                                == figures_above(
                                Interleaving {
                                    elements: element_views(elements@),
                                    placed: placed as int,
                                    group: views(group@),
                                },
                                tops,
                                paths,
                                top,
                                size,
                                height,
                                direction,
                            ),
                        decreases figures.len() - placed,
                    {
                        flush_group(&mut elements, &group, size, height, direction);
                        place_figure(&mut elements, figure_images, placed);
                        group = Vec::new();
                        assert(views(group@) =~= Seq::<BlockView>::empty());
                        placed += 1;
                    }
                    let ghost before = views(group@);
                    let block = sorted[i].clone();
                    group.push(block);
                    assert(views(group@) =~= before.push(views(sorted@)[i as int]));
                    i += 1;
                }
                flush_group(&mut elements, &group, size, height, direction);
                while placed < figures.len()
                    invariant
                        placed <= figures.len(),
                        tops == figure_tops(figures@),
                        paths == image_paths(figure_images@),
                        mixed_elements(
                            views(ocr_result.text_blocks@),
                            tops,
                            paths,
                            direction,
                        ) == with_figures_from(
                            element_views(elements@),
                            tops.len() as int,
                            paths,
                            placed as int,
                        ),
                    decreases figures.len() - placed,
                {
                    place_figure(&mut elements, figure_images, placed);
                    placed += 1;
                }
            },
        }
        let ghost body = element_views(elements@);
        elements.push(ContentElement::PageBreak);
        assert(element_views(elements@) =~= body.push(ElementView::PageBreak));
        PageContent { page_index, elements }
    }
}

/// Writes the paragraphs of a text: each trimmed and ended with a blank
/// line, the blank ones left out.
fn write_paragraphs(md: &mut Vec<char>, content: &str)
    ensures
        final(md)@ == old(md)@ + written_paragraphs(paragraphs_from(content@, Seq::empty())),
{
    let chars = chars_of(content);
    let n: usize = chars.len();
    let ghost before = md@;
    let mut current: Vec<char> = Vec::new();
    let mut i: usize = 0;
    assert(chars@.skip(0) =~= chars@);
    assert(md@ =~= before + Seq::<char>::empty());
    let ghost mut done: Seq<char> = Seq::empty();
    while i < n
        invariant
            i <= n == chars.len(),
            chars@ == content@,
            md@ == before + done,
            done + written_paragraphs(paragraphs_from(chars@.skip(i as int), current@))
                == written_paragraphs(paragraphs_from(content@, Seq::empty())),
        decreases n - i,
    {
        let ghost rest = chars@.skip(i as int);
        if n - i >= 2 && chars[i] == '\n' && chars[i + 1] == '\n' {
            proof {
                assert(rest[0] == '\n' && rest[1] == '\n');
                assert(rest.skip(2) =~= chars@.skip(i as int + 2));
                let others = paragraphs_from(rest.skip(2), Seq::empty());
                let all = seq![current@] + others;
                assert(all.first() == current@);
                assert(all.drop_first() =~= others);
            }
            write_paragraph(md, &current);
            proof {
                done = done + written_paragraph(current@);
                assert(md@ =~= before + done);
            }
            current = Vec::new();
            i += 2;
        } else {
            proof {
                assert(rest[0] == chars@[i as int]);
                assert(rest.drop_first() =~= chars@.skip(i as int + 1));
            }
            current.push(chars[i]);
            i += 1;
        }
    }
    proof {
        let last = seq![current@];
        assert(last.first() == current@);
        assert(last.drop_first() =~= Seq::<Seq<char>>::empty());
        assert(written_paragraphs(last.drop_first()) =~= Seq::<char>::empty());
        assert(written_paragraphs(last) =~= written_paragraph(current@));
    }
    write_paragraph(md, &current);
    assert(md@ =~= before + (done + written_paragraph(current@)));
}

/// Writes a paragraph: trimmed and ended with a blank line, or nothing
/// where it is blank.
fn write_paragraph(md: &mut Vec<char>, paragraph: &Vec<char>)
    ensures
        final(md)@ == old(md)@ + written_paragraph(paragraph@),
{
    let text = trim_chars(paragraph);
    if text.len() > 0 {
        append(md, &text);
        md.push('\n');
        md.push('\n');
        assert(md@ =~= old(md)@ + (text@ + seq!['\n', '\n']));
    } else {
        assert(md@ =~= old(md)@ + Seq::<char>::empty());
    }
}

/// Writes the reference to an image with the given caption.
fn write_reference(md: &mut Vec<char>, caption: &str, path: &str)
    ensures
        final(md)@ == old(md)@ + image_reference(caption@, path@),
{
    let caption_chars = chars_of(caption);
    let path_chars = chars_of(path);
    md.push('!');
    md.push('[');
    append(md, &caption_chars);
    md.push(']');
    md.push('(');
    append(md, &path_chars);
    md.push(')');
    md.push('\n');
    md.push('\n');
    assert(md@ =~= old(md)@ + image_reference(caption@, path@));
}

} // verus!
