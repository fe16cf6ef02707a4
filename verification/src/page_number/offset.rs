//! The book-wide offset analysis: the shift between physical and printed
//! page numbers, a reference position for the numbers of odd and of even
//! pages, the shift of each page toward its reference, and the completion
//! of the corrections for every page of the book.

use vstd::prelude::*;
use crate::numeric::{clamp_i32, div_toward_zero, divide_toward_zero, saturate_i32};
use crate::page_number::geometry::Point;
use crate::page_number::overlap::{
    calc_group_reference_position, group_boxes, has_parity, overlap_center,
};
use crate::page_number::shift::{
    agrees, best_shift, detection_agrees, is_best_shift, lemma_best_shift_is_best,
    lemma_best_shift_unique, lemma_no_shift_scores_highest, lemma_shift_score_bounded, magnitude,
    magnitude_of, numbered_as_scanned, score_shift, shift_beats, shift_confidence, shift_count,
    shift_score, MAX_SHIFT_TEST,
};
use crate::page_number::types::{DetectedPageNumber, PageNumberRect};
use crate::sorting::{lemma_stable_order, order_by_key, precedes, stable_order};

verus! {

/// The least number of matching pages for a shift to be trusted.
pub const MIN_MATCH_COUNT: usize = 5;

/// Two vertical references that differ by less than this number of pixels
/// are replaced by their mean.
pub const Y_ALIGNMENT_LIMIT: i32 = 350;

/// The correction of one physical page.
#[derive(Debug, Clone, Copy, PartialEq, Eq, Structural)]
pub struct PageOffsetResult {
    /// The page's position in the file, counted from 1.
    pub physical_page: usize,
    /// The number printed on the page, where the detection agrees with the
    /// book's shift.
    pub logical_page: Option<i32>,
    /// The horizontal shift to apply, in pixels.
    pub shift_x: i32,
    /// The vertical shift to apply, in pixels.
    pub shift_y: i32,
    /// Where the page number was detected.
    pub page_number_position: Option<PageNumberRect>,
    /// Whether the physical page number is odd.
    pub is_odd: bool,
}

impl PageOffsetResult {
    /// The entry of a page that needs no correction.
    pub open spec fn spec_no_offset(physical_page: usize) -> Self {
        PageOffsetResult {
            physical_page,
            logical_page: None,
            shift_x: 0,
            shift_y: 0,
            page_number_position: None,
            is_odd: physical_page % 2 == 1,
        }
    }

    /// The entry of a page that needs no correction: no printed number, no
    /// shift, no position.
    #[verifier::when_used_as_spec(spec_no_offset)]
    pub fn no_offset(physical_page: usize) -> (r: Self)
        ensures
            r == Self::spec_no_offset(physical_page),
    {
        PageOffsetResult {
            physical_page,
            logical_page: None,
            shift_x: 0,
            shift_y: 0,
            page_number_position: None,
            is_odd: physical_page % 2 == 1,
        }
    }
}

/// Whether `count` matching pages out of `total` are enough to trust a
/// shift: five at least, and a third of the pages at least.
pub open spec fn enough_matches(count: int, total: int) -> bool {
    count >= MIN_MATCH_COUNT && count * 3 >= total
}

/// The result of the analysis of a book.
#[derive(Debug)]
pub struct BookOffsetAnalysis {
    /// The physical page number minus the printed one.
    pub page_number_shift: i32,
    /// The corrections, page by page.
    pub page_offsets: Vec<PageOffsetResult>,
    /// The horizontal reference of the odd pages, if there is an odd page
    /// with a matching number.
    pub odd_avg_x: Option<i32>,
    /// The horizontal reference of the even pages.
    pub even_avg_x: Option<i32>,
    /// The vertical reference of the odd pages.
    pub odd_avg_y: Option<i32>,
    /// The vertical reference of the even pages.
    pub even_avg_y: Option<i32>,
    /// The number of pages whose number agrees with the shift.
    pub match_count: usize,
    /// The confidence in the analysis, in millionths.
    pub confidence: u32,
}

/// What a `BookOffsetAnalysis` holds, the list of corrections as a sequence.
pub struct AnalysisView {
    pub page_number_shift: i32,
    pub page_offsets: Seq<PageOffsetResult>,
    pub odd_avg_x: Option<i32>,
    pub even_avg_x: Option<i32>,
    pub odd_avg_y: Option<i32>,
    pub even_avg_y: Option<i32>,
    pub match_count: usize,
    pub confidence: u32,
}

impl View for BookOffsetAnalysis {
    type V = AnalysisView;

    open spec fn view(&self) -> AnalysisView {
        AnalysisView {
            page_number_shift: self.page_number_shift,
            page_offsets: self.page_offsets@,
            odd_avg_x: self.odd_avg_x,
            even_avg_x: self.even_avg_x,
            odd_avg_y: self.odd_avg_y,
            even_avg_y: self.even_avg_y,
            match_count: self.match_count,
            confidence: self.confidence,
        }
    }
}

/// The analysis that holds nothing: no shift, no page, no reference.
pub open spec fn empty_analysis() -> AnalysisView {
    AnalysisView {
        page_number_shift: 0,
        page_offsets: Seq::empty(),
        odd_avg_x: None,
        even_avg_x: None,
        odd_avg_y: None,
        even_avg_y: None,
        match_count: 0,
        confidence: 0,
    }
}

impl Default for BookOffsetAnalysis {
    /// The analysis that holds nothing.
    fn default() -> (a: Self)
        ensures
            a@ == empty_analysis(),
    {
        BookOffsetAnalysis {
            page_number_shift: 0,
            page_offsets: Vec::new(),
            odd_avg_x: None,
            even_avg_x: None,
            odd_avg_y: None,
            even_avg_y: None,
            match_count: 0,
            confidence: 0,
        }
    }
}

impl Clone for BookOffsetAnalysis {
    fn clone(&self) -> (a: Self)
        ensures
            a@ == self@,
    {
        let n: usize = self.page_offsets.len();
        let mut page_offsets: Vec<PageOffsetResult> = Vec::new();
        let mut i: usize = 0;
        while i < n
            invariant
                i <= n == self.page_offsets.len(),
                page_offsets@ == self.page_offsets@.take(i as int),
            decreases n - i,
        {
            page_offsets.push(self.page_offsets[i]);
            assert(page_offsets@ =~= self.page_offsets@.take(i as int + 1));
            i += 1;
        }
        assert(self.page_offsets@.take(n as int) =~= self.page_offsets@);
        BookOffsetAnalysis {
            page_number_shift: self.page_number_shift,
            page_offsets,
            odd_avg_x: self.odd_avg_x,
            even_avg_x: self.even_avg_x,
            odd_avg_y: self.odd_avg_y,
            even_avg_y: self.even_avg_y,
            match_count: self.match_count,
            confidence: self.confidence,
        }
    }
}

impl BookOffsetAnalysis {
    /// Whether the analysis rests on enough matching pages of a book of
    /// `total_pages` pages.
    pub open spec fn spec_is_reliable(&self, total_pages: usize) -> bool {
        enough_matches(self.match_count as int, total_pages as int)
    }

    /// Whether the analysis rests on enough matching pages: five at least,
    /// and a third of the book's pages at least.
    #[verifier::when_used_as_spec(spec_is_reliable)]
    pub fn is_reliable(&self, total_pages: usize) -> (reliable: bool)
        ensures
            reliable == self.spec_is_reliable(total_pages),
            self.match_count < 5 ==> !reliable,
            self.match_count >= 5 && self.match_count * 3 >= total_pages ==> reliable,
    {
        self.match_count >= MIN_MATCH_COUNT && self.match_count as u128 * 3 >= total_pages as u128
    }

    /// The first correction listed for the physical page, if there is one.
    pub fn get_offset(&self, physical_page: usize) -> (found: Option<&PageOffsetResult>)
        ensures
            match found {
                Some(entry) => exists|i: int|
                    {
                        &&& 0 <= i < self.page_offsets.len()
                        &&& *entry == #[trigger] self.page_offsets[i]
                        &&& entry.physical_page == physical_page
                        &&& forall|j: int|
                            0 <= j < i ==> (#[trigger] self.page_offsets[j]).physical_page
                                != physical_page
                    },
                None => forall|i: int|
                    0 <= i < self.page_offsets.len() ==> (#[trigger] self.page_offsets[i]).physical_page
                        != physical_page,
            },
    {
        let n: usize = self.page_offsets.len();
        let mut i: usize = 0;
        while i < n
            invariant
                i <= n == self.page_offsets.len(),
                forall|j: int|
                    0 <= j < i ==> (#[trigger] self.page_offsets[j]).physical_page != physical_page,
            decreases n - i,
        {
            if self.page_offsets[i].physical_page == physical_page {
                return Some(&self.page_offsets[i]);
            }
            i += 1;
        }
        None
    }
}

/// The pages whose detected number agrees with the shift, each with its
/// physical page number and the place of the detection.
pub open spec fn matched_positions(detections: Seq<DetectedPageNumber>, shift: int) -> Seq<
    (usize, PageNumberRect),
>
    decreases detections.len(),
{
    if detections.len() == 0 {
        Seq::empty()
    } else if agrees(detections.last(), shift) {
        matched_positions(detections.drop_last(), shift).push(
            ((detections.last().page_index + 1) as usize, detections.last().position),
        )
    } else {
        matched_positions(detections.drop_last(), shift)
    }
}

/// The reference position of the matched pages of one parity; nothing where
/// no page of that parity is matched.
pub open spec fn group_reference(
    detections: Seq<DetectedPageNumber>,
    shift: int,
    is_odd: bool,
) -> Option<Point> {
    let boxes = group_boxes(matched_positions(detections, shift), is_odd);
    if boxes.len() == 0 {
        None
    } else {
        Some(overlap_center(boxes))
    }
}

/// The horizontal coordinate of a reference.
pub open spec fn reference_x(reference: Option<Point>) -> Option<i32> {
    match reference {
        Some(p) => Some(p.x),
        None => None,
    }
}

/// The vertical coordinate of a reference.
pub open spec fn reference_y(reference: Option<Point>) -> Option<i32> {
    match reference {
        Some(p) => Some(p.y),
        None => None,
    }
}

/// The vertical references of the odd and of the even pages after
/// alignment: where both exist and differ by less than the limit, both
/// become their mean, rounded toward zero.
pub open spec fn aligned_y(odd: Option<i32>, even: Option<i32>) -> (Option<i32>, Option<i32>) {
    match (odd, even) {
        (Some(o), Some(e)) => if magnitude(o - e) < Y_ALIGNMENT_LIMIT {
            let mean = div_toward_zero(o + e, 2) as i32;
            (Some(mean), Some(mean))
        } else {
            (odd, even)
        },
        _ => (odd, even),
    }
}

/// The shift that moves a center coordinate to its reference; 0 without a
/// reference.
pub open spec fn shift_toward(reference: Option<i32>, center: i32) -> i32 {
    match reference {
        Some(r) => clamp_i32(r - center) as i32,
        None => 0,
    }
}

/// The correction of one page: for a page whose number agrees with the
/// shift, the printed number, the place of the detection and the shift of
/// its center to the references of the page's parity; for any other page,
/// no correction.
pub open spec fn page_offset_of(
    d: DetectedPageNumber,
    shift: int,
    odd_x: Option<i32>,
    even_x: Option<i32>,
    odd_y: Option<i32>,
    even_y: Option<i32>,
) -> PageOffsetResult {
    let page = (d.page_index + 1) as usize;
    let is_odd = page % 2 == 1;
    let center = d.position.spec_to_rectangle().spec_center();
    if agrees(d, shift) {
        PageOffsetResult {
            physical_page: page,
            logical_page: Some((d.page_index + 1 - shift) as i32),
            shift_x: shift_toward(if is_odd { odd_x } else { even_x }, center.0),
            shift_y: shift_toward(if is_odd { odd_y } else { even_y }, center.1),
            page_number_position: Some(d.position),
            is_odd,
        }
    } else {
        PageOffsetResult::spec_no_offset(page)
    }
}

/// The corrections of all pages.
pub open spec fn page_offsets_of(
    detections: Seq<DetectedPageNumber>,
    shift: int,
    odd_x: Option<i32>,
    even_x: Option<i32>,
    odd_y: Option<i32>,
    even_y: Option<i32>,
) -> Seq<PageOffsetResult> {
    Seq::new(
        detections.len(),
        |i: int| page_offset_of(detections[i], shift, odd_x, even_x, odd_y, even_y),
    )
}

/// For each detection the entry of a page that needs no correction.
pub open spec fn stub_offsets(detections: Seq<DetectedPageNumber>) -> Seq<PageOffsetResult> {
    Seq::new(
        detections.len(),
        |i: int| PageOffsetResult::spec_no_offset((detections[i].page_index + 1) as usize),
    )
}

/// Whether every detection has a physical page number that fits the
/// machine's word.
pub open spec fn pages_fit(detections: Seq<DetectedPageNumber>) -> bool {
    forall|i: int| 0 <= i < detections.len() ==> (#[trigger] detections[i]).page_index < usize::MAX
}

/// The analysis of a book.
///
/// Without detections it holds nothing. Where too few detections agree with
/// the best shift, it holds no shift, no reference and, for each detection,
/// an entry without correction. Otherwise it holds the best shift, the
/// number of agreeing detections, the confidence in the shift, the
/// references of the odd and of the even pages, with their vertical
/// coordinates aligned, and the correction of each page.
pub open spec fn analysis_of(detections: Seq<DetectedPageNumber>) -> AnalysisView {
    let shift = best_shift(detections);
    let count = shift_count(detections, shift);
    let odd = group_reference(detections, shift, true);
    let even = group_reference(detections, shift, false);
    let y = aligned_y(reference_y(odd), reference_y(even));
    if detections.len() == 0 {
        empty_analysis()
    } else if !enough_matches(count, detections.len() as int) {
        AnalysisView {
            page_number_shift: 0,
            page_offsets: stub_offsets(detections),
            odd_avg_x: None,
            even_avg_x: None,
            odd_avg_y: None,
            even_avg_y: None,
            match_count: 0,
            confidence: 0,
        }
    } else {
        AnalysisView {
            page_number_shift: shift as i32,
            page_offsets: page_offsets_of(
                detections,
                shift,
                reference_x(odd),
                reference_x(even),
                y.0,
                y.1,
            ),
            odd_avg_x: reference_x(odd),
            even_avg_x: reference_x(even),
            odd_avg_y: y.0,
            even_avg_y: y.1,
            match_count: count as usize,
            confidence: shift_confidence(detections, shift) as u32,
        }
    }
}

/// Whether a list of corrections has an entry for the page.
pub open spec fn has_page(offsets: Seq<PageOffsetResult>, page: int) -> bool {
    exists|i: int| 0 <= i < offsets.len() && (#[trigger] offsets[i]).physical_page == page
}

/// The list with an entry without correction added, in ascending order of
/// pages, for each page from 1 to `total` that the list lacks.
pub open spec fn with_missing_pages(offsets: Seq<PageOffsetResult>, total: nat) -> Seq<
    PageOffsetResult,
>
    decreases total,
{
    if total == 0 {
        offsets
    } else if has_page(offsets, total as int) {
        with_missing_pages(offsets, (total - 1) as nat)
    } else {
        with_missing_pages(offsets, (total - 1) as nat).push(
            PageOffsetResult::spec_no_offset(total as usize),
        )
    }
}

/// The physical page number of each entry.
pub open spec fn page_keys(offsets: Seq<PageOffsetResult>) -> Seq<u64> {
    Seq::new(offsets.len(), |i: int| offsets[i].physical_page as u64)
}

/// The entries in ascending order of pages, entries of one page in their
/// order.
pub open spec fn sorted_by_page(offsets: Seq<PageOffsetResult>) -> Seq<PageOffsetResult> {
    let order = stable_order(page_keys(offsets));
    Seq::new(order.len(), |p: int| offsets[order[p] as int])
}

/// The list completed for a book of `total` pages: an entry without
/// correction is added for each missing page, and the entries are put in
/// ascending order of pages.
pub open spec fn interpolated(offsets: Seq<PageOffsetResult>, total: nat) -> Seq<
    PageOffsetResult,
> {
    sorted_by_page(with_missing_pages(offsets, total))
}

/// Whether a list of corrections has an entry for the page.
pub fn contains_page(offsets: &[PageOffsetResult], page: usize) -> (found: bool)
    ensures
        found == has_page(offsets@, page as int),
{
    let n: usize = offsets.len();
    let mut i: usize = 0;
    while i < n
        invariant
            i <= n == offsets.len(),
            forall|j: int| 0 <= j < i ==> (#[trigger] offsets@[j]).physical_page != page,
        decreases n - i,
    {
        if offsets[i].physical_page == page {
            return true;
        }
        i += 1;
    }
    false
}

/// Computes the corrections of a book from the page numbers detected on its
/// pages.
pub struct PageOffsetAnalyzer;

impl PageOffsetAnalyzer {
    /// Analyses a book: finds the shift between physical and printed page
    /// numbers, the reference positions of the odd and of the even pages,
    /// and the correction of each page. The image height is accepted and not
    /// consulted.
    pub fn analyze_offsets(detections: &[DetectedPageNumber], _image_height: u32) -> (analysis:
        BookOffsetAnalysis)
        requires
            pages_fit(detections@),
        ensures
            analysis@ == analysis_of(detections@),
            analysis.page_offsets@.len() == detections.len(),
            analysis.match_count == logical_count(analysis.page_offsets@),
            forall|i: int|
                0 <= i < detections.len() ==> answers_for(
                    #[trigger] analysis.page_offsets@[i],
                    detections[i],
                    analysis.page_number_shift,
                ),
    {
        let count: usize = detections.len();
        proof {
            law_shift_round_trip(detections@);
        }
        if count == 0 {
            return BookOffsetAnalysis::default();
        }
        let best = Self::find_best_page_number_shift(detections);
        let shift: i32 = best.0;
        let match_count: usize = best.1;
        let n: usize = detections.len();
        if match_count < MIN_MATCH_COUNT || (match_count as u128 * 3) < n as u128 {
            let mut stubs: Vec<PageOffsetResult> = Vec::new();
            let mut i: usize = 0;
            while i < n
                invariant
                    i <= n == detections.len(),
                    pages_fit(detections@),
                    stubs@ == stub_offsets(detections@).take(i as int),
                decreases n - i,
            {
                stubs.push(PageOffsetResult::no_offset(detections[i].page_index + 1));
                assert(stubs@ =~= stub_offsets(detections@).take(i as int + 1));
                i += 1;
            }
            assert(stub_offsets(detections@).take(n as int) =~= stub_offsets(detections@));
            return BookOffsetAnalysis {
                page_number_shift: 0,
                page_offsets: stubs,
                odd_avg_x: None,
                even_avg_x: None,
                odd_avg_y: None,
                even_avg_y: None,
                match_count: 0,
                confidence: 0,
            };
        }
        let mut positions: Vec<(usize, PageNumberRect)> = Vec::new();
        let mut i: usize = 0;
        assert(detections@.take(0) =~= Seq::<DetectedPageNumber>::empty());
        while i < n
            invariant
                i <= n == detections.len(),
                pages_fit(detections@),
                positions@ == matched_positions(detections@.take(i as int), shift as int),
            decreases n - i,
        {
            proof {
                let longer = detections@.take(i as int + 1);
                assert(longer.drop_last() =~= detections@.take(i as int));
                assert(longer.last() == detections@[i as int]);
            }
            if detection_agrees(&detections[i], shift) {
                positions.push((detections[i].page_index + 1, detections[i].position));
            }
            i += 1;
        }
        assert(detections@.take(n as int) =~= detections@);
        let odd_ref = calc_group_reference_position(positions.as_slice(), true);
        let even_ref = calc_group_reference_position(positions.as_slice(), false);
        let has_odd = has_parity(positions.as_slice(), true);
        let has_even = has_parity(positions.as_slice(), false);
        let odd_avg_x: Option<i32> = if has_odd { Some(odd_ref.x) } else { None };
        let odd_avg_y: Option<i32> = if has_odd { Some(odd_ref.y) } else { None };
        let even_avg_x: Option<i32> = if has_even { Some(even_ref.x) } else { None };
        let even_avg_y: Option<i32> = if has_even { Some(even_ref.y) } else { None };
        let aligned = Self::align_group_y_values(odd_avg_y, even_avg_y);
        let page_offsets = Self::calculate_per_page_offsets(
            detections,
            shift,
            odd_avg_x,
            even_avg_x,
            aligned.0,
            aligned.1,
        );
        BookOffsetAnalysis {
            page_number_shift: shift,
            page_offsets,
            odd_avg_x,
            even_avg_x,
            odd_avg_y: aligned.0,
            even_avg_y: aligned.1,
            match_count,
            confidence: best.2,
        }
    }

    /// Finds the shift between physical and printed page numbers that explains
    /// the detections best, with the number of detections that agree with it
    /// and the confidence in it.
    pub fn find_best_page_number_shift(detections: &[DetectedPageNumber]) -> (r: (i32, usize, u32))
        ensures
            r.0 == best_shift(detections@),
            is_best_shift(detections@, r.0 as int, MAX_SHIFT_TEST as int),
            r.1 == shift_count(detections@, r.0 as int),
            r.2 == shift_confidence(detections@, r.0 as int),
    {
        let first = score_shift(detections, -MAX_SHIFT_TEST);
        let mut chosen_shift: i32 = -MAX_SHIFT_TEST;
        let mut best_score: u128 = first.0;
        let mut best_count: usize = first.1;
        let mut shift: i32 = -MAX_SHIFT_TEST + 1;
        while shift < MAX_SHIFT_TEST
            invariant
                -MAX_SHIFT_TEST < shift <= MAX_SHIFT_TEST,
                is_best_shift(detections@, chosen_shift as int, shift as int),
                best_score == shift_score(detections@, chosen_shift as int),
                best_count == shift_count(detections@, chosen_shift as int),
            decreases MAX_SHIFT_TEST - shift,
        {
            let current = score_shift(detections, shift);
            let smaller = magnitude_of(shift) < magnitude_of(chosen_shift);
            if current.0 > best_score || (current.0 == best_score && smaller) {
                proof {
                    let ghost previous = chosen_shift as int;
                    assert(shift_beats(detections@, shift as int, previous));
                    assert forall|t: int| -MAX_SHIFT_TEST <= t < shift + 1 implies !#[trigger] shift_beats(
                        detections@,
                        t,
                        shift as int,
                    ) by {
                        if t < shift {
                            assert(!shift_beats(detections@, t, previous));
                        }
                    }
                    assert forall|t: int| -MAX_SHIFT_TEST <= t < shift implies #[trigger] shift_beats(
                        detections@,
                        shift as int,
                        t,
                    ) by {
                        assert(!shift_beats(detections@, t, previous));
                    }
                }
                chosen_shift = shift;
                best_score = current.0;
                best_count = current.1;
            } else {
                proof {
                    assert(!shift_beats(detections@, shift as int, chosen_shift as int));
                }
            }
            shift += 1;
        }
        proof {
            let chosen = best_shift(detections@);
            lemma_best_shift_unique(detections@, chosen_shift as int, chosen, MAX_SHIFT_TEST as int);
            lemma_shift_score_bounded(detections@, chosen_shift as int);
        }
        let n: usize = detections.len();
        let confidence: u32 = if n == 0 {
            0
        } else {
            let whole: u128 = n as u128 * 100;
            assert(best_score / whole <= u32::MAX) by (nonlinear_arith)
                requires
                    0 <= best_score <= n * (u32::MAX as int),
                    whole == n * 100,
                    n > 0,
            ;
            (best_score / whole) as u32
        };
        (chosen_shift, best_count, confidence)
    }

    /// Aligns the vertical references of the odd and of the even pages:
    /// where both exist and differ by less than 350 pixels, both become
    /// their mean.
    pub fn align_group_y_values(odd_avg_y: Option<i32>, even_avg_y: Option<i32>) -> (aligned: (
        Option<i32>,
        Option<i32>,
    ))
        ensures
            aligned == aligned_y(odd_avg_y, even_avg_y),
    {
        match (odd_avg_y, even_avg_y) {
            (Some(odd_y), Some(even_y)) => {
                let difference: i64 = odd_y as i64 - even_y as i64;
                let distance: i64 = if difference < 0 { -difference } else { difference };
                if distance < Y_ALIGNMENT_LIMIT as i64 {
                    let sum: i128 = odd_y as i128 + even_y as i128;
                    let mean: i128 = divide_toward_zero(sum, 2);
                    (Some(mean as i32), Some(mean as i32))
                } else {
                    (Some(odd_y), Some(even_y))
                }
            },
            _ => (odd_avg_y, even_avg_y),
        }
    }

    /// The correction of each page, given the shift and the references.
    pub fn calculate_per_page_offsets(
        detections: &[DetectedPageNumber],
        shift: i32,
        odd_avg_x: Option<i32>,
        even_avg_x: Option<i32>,
        odd_avg_y: Option<i32>,
        even_avg_y: Option<i32>,
    ) -> (offsets: Vec<PageOffsetResult>)
        requires
            pages_fit(detections@),
        ensures
            offsets@ == page_offsets_of(
                detections@,
                shift as int,
                odd_avg_x,
                even_avg_x,
                odd_avg_y,
                even_avg_y,
            ),
    {
        let ghost wanted = page_offsets_of(
            detections@,
            shift as int,
            odd_avg_x,
            even_avg_x,
            odd_avg_y,
            even_avg_y,
        );
        let n: usize = detections.len();
        let mut offsets: Vec<PageOffsetResult> = Vec::new();
        let mut i: usize = 0;
        while i < n
            invariant
                i <= n == detections.len(),
                pages_fit(detections@),
                wanted == page_offsets_of(
                    detections@,
                    shift as int,
                    odd_avg_x,
                    even_avg_x,
                    odd_avg_y,
                    even_avg_y,
                ),
                offsets@ == wanted.take(i as int),
            decreases n - i,
        {
            let d = &detections[i];
            let physical_page: usize = d.page_index + 1;
            let entry = if detection_agrees(d, shift) {
                let is_odd = physical_page % 2 == 1;
                let center = d.position.to_rectangle().center();
                let expected: i128 = d.page_index as i128 + 1 - shift as i128;
                PageOffsetResult {
                    physical_page,
                    logical_page: Some(expected as i32),
                    shift_x: shift_to(if is_odd { odd_avg_x } else { even_avg_x }, center.0),
                    shift_y: shift_to(if is_odd { odd_avg_y } else { even_avg_y }, center.1),
                    page_number_position: Some(d.position),
                    is_odd,
                }
            } else {
                PageOffsetResult::no_offset(physical_page)
            };
            offsets.push(entry);
            assert(offsets@ =~= wanted.take(i as int + 1));
            i += 1;
        }
        assert(wanted.take(n as int) =~= wanted);
        offsets
    }

    /// Completes the corrections for a book of `total_pages` pages: adds an
    /// entry without correction for each page from 1 to `total_pages` that
    /// has none, and puts the entries in ascending order of pages.
    pub fn interpolate_missing_offsets(analysis: &mut BookOffsetAnalysis, total_pages: usize)
        ensures
            final(analysis)@.page_offsets == interpolated(
                old(analysis)@.page_offsets,
                total_pages as nat,
            ),
            pages_ascend(final(analysis)@.page_offsets),
            covers_book(final(analysis)@.page_offsets, total_pages as int),
            final(analysis)@.page_number_shift == old(analysis)@.page_number_shift,
            final(analysis)@.odd_avg_x == old(analysis)@.odd_avg_x,
            final(analysis)@.even_avg_x == old(analysis)@.even_avg_x,
            final(analysis)@.odd_avg_y == old(analysis)@.odd_avg_y,
            final(analysis)@.even_avg_y == old(analysis)@.even_avg_y,
            final(analysis)@.match_count == old(analysis)@.match_count,
            final(analysis)@.confidence == old(analysis)@.confidence,
    {
        let ghost before = analysis.page_offsets@;
        let existing: usize = analysis.page_offsets.len();
        let mut all: Vec<PageOffsetResult> = Vec::new();
        let mut k: usize = 0;
        while k < existing
            invariant
                k <= existing == analysis.page_offsets.len(),
                before == analysis.page_offsets@,
                all@ == before.take(k as int),
            decreases existing - k,
        {
            all.push(analysis.page_offsets[k]);
            assert(all@ =~= before.take(k as int + 1));
            k += 1;
        }
        assert(before.take(existing as int) =~= before);
        let mut done: usize = 0;
        while done < total_pages
            invariant
                done <= total_pages,
                before == analysis.page_offsets@,
                all@ == with_missing_pages(before, done as nat),
            decreases total_pages - done,
        {
            let page: usize = done + 1;
            if !contains_page(analysis.page_offsets.as_slice(), page) {
                all.push(PageOffsetResult::no_offset(page));
            }
            done += 1;
        }
        let n: usize = all.len();
        let mut keys: Vec<u64> = Vec::new();
        let mut i: usize = 0;
        while i < n
            invariant
                i <= n == all.len(),
                keys@ == page_keys(all@).take(i as int),
            decreases n - i,
        {
            keys.push(all[i].physical_page as u64);
            assert(keys@ =~= page_keys(all@).take(i as int + 1));
            i += 1;
        }
        assert(page_keys(all@).take(n as int) =~= page_keys(all@));
        let order = order_by_key(&keys);
        let mut sorted: Vec<PageOffsetResult> = Vec::new();
        let mut p: usize = 0;
        while p < n
            invariant
                p <= n == all.len(),
                order@ == stable_order(page_keys(all@)),
                order.len() == n,
                forall|q: int| 0 <= q < order.len() ==> 0 <= #[trigger] order@[q] < n,
                sorted@ == sorted_by_page(all@).take(p as int),
            decreases n - p,
        {
            sorted.push(all[order[p]]);
            assert(sorted@ =~= sorted_by_page(all@).take(p as int + 1));
            p += 1;
        }
        assert(sorted_by_page(all@).take(n as int) =~= sorted_by_page(all@));
        proof {
            law_interpolation_completes(before, total_pages as nat);
        }
        analysis.page_offsets = sorted;
    }
}

/// The shift that moves a center coordinate to its reference; 0 without a
/// reference.
pub fn shift_to(reference: Option<i32>, center: i32) -> (shift: i32)
    ensures
        shift == shift_toward(reference, center),
{
    match reference {
        Some(r) => saturate_i32(r as i64 - center as i64),
        None => 0,
    }
}

/// In a book whose pages carry their physical page numbers, the shift
/// between physical and printed numbers is 0.
pub proof fn law_sequential_book_has_no_shift(detections: Seq<DetectedPageNumber>)
    requires
        numbered_as_scanned(detections),
    ensures
        best_shift(detections) == 0,
        analysis_of(detections).page_number_shift == 0,
{
    assert forall|t: int| -MAX_SHIFT_TEST <= t < MAX_SHIFT_TEST implies !#[trigger] shift_beats(
        detections,
        t,
        0,
    ) by {
        lemma_no_shift_scores_highest(detections, t);
    }
    assert forall|t: int| -MAX_SHIFT_TEST <= t < 0 implies #[trigger] shift_beats(
        detections,
        0,
        t,
    ) by {
        lemma_no_shift_scores_highest(detections, t);
    }
    assert(is_best_shift(detections, 0, MAX_SHIFT_TEST as int));
    lemma_best_shift_is_best(detections);
    lemma_best_shift_unique(detections, 0, best_shift(detections), MAX_SHIFT_TEST as int);
}

/// The number of entries that carry a printed page number.
pub open spec fn logical_count(offsets: Seq<PageOffsetResult>) -> int
    decreases offsets.len(),
{
    if offsets.len() == 0 {
        0
    } else {
        logical_count(offsets.drop_last()) + if offsets.last().logical_page is Some {
            1int
        } else {
            0int
        }
    }
}

/// Of the corrections of the first `k` pages, as many carry a printed
/// number as detections agree with the shift.
pub proof fn lemma_logical_count_is_shift_count(
    detections: Seq<DetectedPageNumber>,
    shift: int,
    odd_x: Option<i32>,
    even_x: Option<i32>,
    odd_y: Option<i32>,
    even_y: Option<i32>,
    k: int,
)
    requires
        0 <= k <= detections.len(),
    ensures
        logical_count(page_offsets_of(detections, shift, odd_x, even_x, odd_y, even_y).take(k))
            == shift_count(detections.take(k), shift),
    decreases k,
{
    let offsets = page_offsets_of(detections, shift, odd_x, even_x, odd_y, even_y);
    if k > 0 {
        lemma_logical_count_is_shift_count(detections, shift, odd_x, even_x, odd_y, even_y, k - 1);
        assert(offsets.take(k).drop_last() =~= offsets.take(k - 1));
        assert(detections.take(k).drop_last() =~= detections.take(k - 1));
        assert(offsets.take(k).last() == offsets[k - 1]);
        assert(detections.take(k).last() == detections[k - 1]);
    }
}

/// No entry without correction carries a printed number.
pub proof fn lemma_stubs_have_no_logical_page(detections: Seq<DetectedPageNumber>, k: int)
    requires
        0 <= k <= detections.len(),
    ensures
        logical_count(stub_offsets(detections).take(k)) == 0,
    decreases k,
{
    if k > 0 {
        lemma_stubs_have_no_logical_page(detections, k - 1);
        assert(stub_offsets(detections).take(k).drop_last() =~= stub_offsets(detections).take(
            k - 1,
        ));
    }
}

/// Whether a correction answers for a shift: it belongs to the detection's
/// physical page, and a printed number that it carries is the physical page
/// number minus the shift and is the number detected on the page.
pub open spec fn answers_for(entry: PageOffsetResult, d: DetectedPageNumber, shift: i32) -> bool {
    &&& entry.physical_page == d.page_index + 1
    &&& match entry.logical_page {
        Some(l) => l == entry.physical_page - shift && d.number == Some(l),
        None => true,
    }
}

/// The analysis answers for its own shift: it lists one correction for each
/// detection; wherever a correction carries a printed number, that number
/// is the physical page number minus the shift and is the number detected
/// on the page; and the pages counted as matching are exactly the pages
/// whose correction carries a printed number.
pub proof fn law_shift_round_trip(detections: Seq<DetectedPageNumber>)
    requires
        pages_fit(detections),
        detections.len() <= usize::MAX,
    ensures
        ({
            let a = analysis_of(detections);
            &&& a.page_offsets.len() == detections.len()
            &&& a.match_count == logical_count(a.page_offsets)
            &&& forall|i: int|
                0 <= i < detections.len() ==> answers_for(
                    #[trigger] a.page_offsets[i],
                    detections[i],
                    a.page_number_shift,
                )
        }),
{
    let a = analysis_of(detections);
    let shift = best_shift(detections);
    lemma_best_shift_is_best(detections);
    lemma_shift_score_bounded(detections, shift);
    let odd = group_reference(detections, shift, true);
    let even = group_reference(detections, shift, false);
    let y = aligned_y(reference_y(odd), reference_y(even));
    if detections.len() == 0 {
    } else if !enough_matches(shift_count(detections, shift), detections.len() as int) {
        lemma_stubs_have_no_logical_page(detections, detections.len() as int);
        assert(stub_offsets(detections).take(detections.len() as int) =~= stub_offsets(
            detections,
        ));
    } else {
        lemma_logical_count_is_shift_count(
            detections,
            shift,
            reference_x(odd),
            reference_x(even),
            y.0,
            y.1,
            detections.len() as int,
        );
        assert(a.page_offsets.take(detections.len() as int) =~= a.page_offsets);
        assert(detections.take(detections.len() as int) =~= detections);
    }
}

/// Whether the entries stand in ascending order of pages.
pub open spec fn pages_ascend(offsets: Seq<PageOffsetResult>) -> bool {
    forall|p: int, q: int|
        0 <= p < q < offsets.len() ==> (#[trigger] offsets[p]).physical_page
            <= (#[trigger] offsets[q]).physical_page
}

/// Whether no two entries belong to one page.
pub open spec fn pages_distinct(offsets: Seq<PageOffsetResult>) -> bool {
    forall|p: int, q: int|
        0 <= p < q < offsets.len() ==> (#[trigger] offsets[p]).physical_page
            != (#[trigger] offsets[q]).physical_page
}

/// Whether every entry belongs to a page from 1 to `total`.
pub open spec fn pages_in_book(offsets: Seq<PageOffsetResult>, total: int) -> bool {
    forall|p: int| 0 <= p < offsets.len() ==> 1 <= (#[trigger] offsets[p]).physical_page <= total
}

/// Whether every page from 1 to `total` has an entry.
pub open spec fn covers_book(offsets: Seq<PageOffsetResult>, total: int) -> bool {
    forall|page: int| 1 <= page <= total ==> #[trigger] has_page(offsets, page)
}

/// What adding the missing pages does: the entries that were there stay in
/// their places; each entry behind them is an entry without correction for
/// a page from 1 to `total` that had none, each for a later page than the
/// one before it; and every page from 1 to `total` has an entry.
pub proof fn lemma_with_missing_pages(offsets: Seq<PageOffsetResult>, total: nat)
    requires
        total <= usize::MAX,
    ensures
        offsets.len() <= with_missing_pages(offsets, total).len() <= offsets.len() + total,
        forall|i: int|
            0 <= i < offsets.len() ==> #[trigger] with_missing_pages(offsets, total)[i]
                == offsets[i],
        forall|i: int|
            offsets.len() <= i < with_missing_pages(offsets, total).len() ==> {
                let entry = #[trigger] with_missing_pages(offsets, total)[i];
                &&& entry == PageOffsetResult::spec_no_offset(entry.physical_page)
                &&& 1 <= entry.physical_page <= total
                &&& !has_page(offsets, entry.physical_page as int)
            },
        forall|i: int, j: int|
            offsets.len() <= i < j < with_missing_pages(offsets, total).len() ==> (
            #[trigger] with_missing_pages(offsets, total)[i]).physical_page < (
            #[trigger] with_missing_pages(offsets, total)[j]).physical_page,
        covers_book(with_missing_pages(offsets, total), total as int),
    decreases total,
{
    let now = with_missing_pages(offsets, total);
    if total > 0 {
        let before = with_missing_pages(offsets, (total - 1) as nat);
        lemma_with_missing_pages(offsets, (total - 1) as nat);
        assert forall|page: int| 1 <= page <= total implies #[trigger] has_page(now, page) by {
            if page < total {
                assert(has_page(before, page));
                let at = choose|at: int|
                    0 <= at < before.len() && (#[trigger] before[at]).physical_page == page;
                assert(now[at] == before[at]);
            } else if has_page(offsets, total as int) {
                let at = choose|at: int|
                    0 <= at < offsets.len() && (#[trigger] offsets[at]).physical_page == page;
                assert(now[at] == offsets[at]);
            } else {
                assert(now[before.len() as int].physical_page == total);
            }
        }
        if !has_page(offsets, total as int) {
            assert forall|i: int, j: int| offsets.len() <= i < j < now.len() implies (
            #[trigger] now[i]).physical_page < (#[trigger] now[j]).physical_page by {
                assert(now[i] == before[i]);
                if j < before.len() {
                    assert(now[j] == before[j]);
                }
            }
        }
    } else {
        assert forall|page: int| 1 <= page <= total implies #[trigger] has_page(now, page) by {}
    }
}

/// What putting entries in order of pages does: the pages ascend, every
/// entry is kept, and no entry is added.
pub proof fn lemma_sorted_by_page(offsets: Seq<PageOffsetResult>)
    requires
        offsets.len() <= usize::MAX,
    ensures
        sorted_by_page(offsets).len() == offsets.len(),
        pages_ascend(sorted_by_page(offsets)),
        forall|i: int| 0 <= i < offsets.len() ==> sorted_by_page(offsets).contains(
            #[trigger] offsets[i],
        ),
        forall|p: int|
            0 <= p < offsets.len() ==> offsets.contains(#[trigger] sorted_by_page(offsets)[p]),
        pages_distinct(offsets) ==> pages_distinct(sorted_by_page(offsets)),
{
    let keys = page_keys(offsets);
    let order = stable_order(keys);
    let sorted = sorted_by_page(offsets);
    lemma_stable_order(keys);
    assert forall|p: int, q: int| 0 <= p < q < sorted.len() implies (
    #[trigger] sorted[p]).physical_page <= (#[trigger] sorted[q]).physical_page by {
        assert(precedes(keys, order[p] as int, order[q] as int));
    }
    assert forall|i: int| 0 <= i < offsets.len() implies sorted.contains(
        #[trigger] offsets[i],
    ) by {
        assert(order.contains(i as usize));
        let p = choose|p: int| 0 <= p < order.len() && order[p] == i as usize;
        assert(sorted[p] == offsets[i]);
    }
    assert forall|p: int| 0 <= p < offsets.len() implies offsets.contains(
        #[trigger] sorted[p],
    ) by {
        let at = order[p] as int;
        assert(0 <= at < offsets.len());
        assert(sorted[p] == offsets[at]);
    }
    if pages_distinct(offsets) {
        assert forall|p: int, q: int| 0 <= p < q < sorted.len() implies (
        #[trigger] sorted[p]).physical_page != (#[trigger] sorted[q]).physical_page by {
            let a = order[p] as int;
            let b = order[q] as int;
            assert(precedes(keys, a, b));
            assert(0 <= a < offsets.len() && 0 <= b < offsets.len());
            if a < b {
                assert(offsets[a].physical_page != offsets[b].physical_page);
            } else if b < a {
                assert(offsets[b].physical_page != offsets[a].physical_page);
            }
        }
    }
}

/// Entries whose pages ascend without repetition, lie from 1 to `total` and
/// cover every page from 1 to `total` list the pages one by one: the entry
/// at `i` belongs to page `i + 1`.
pub proof fn lemma_dense_at(offsets: Seq<PageOffsetResult>, total: int, i: int)
    requires
        pages_ascend(offsets),
        pages_distinct(offsets),
        pages_in_book(offsets, total),
        covers_book(offsets, total),
        0 <= i < offsets.len(),
    ensures
        offsets[i].physical_page == i + 1,
    decreases i,
{
    if i > 0 {
        lemma_dense_at(offsets, total, i - 1);
        assert(offsets[i - 1].physical_page <= offsets[i].physical_page);
        assert(offsets[i - 1].physical_page != offsets[i].physical_page);
    }
    if offsets[i].physical_page > i + 1 {
        assert(has_page(offsets, i + 1));
        let j = choose|j: int|
            0 <= j < offsets.len() && (#[trigger] offsets[j]).physical_page == i + 1;
        if j > i {
            assert(offsets[i].physical_page <= offsets[j].physical_page);
        } else if j < i {
            if j < i - 1 {
                assert(offsets[j].physical_page <= offsets[i - 1].physical_page);
            }
        }
    }
}

/// The completed list is in ascending order of pages, covers every page of
/// the book, keeps every entry that was there, and adds nothing but entries
/// without correction for pages that had none.
pub proof fn law_interpolation_completes(offsets: Seq<PageOffsetResult>, total: nat)
    requires
        total <= usize::MAX,
        with_missing_pages(offsets, total).len() <= usize::MAX,
    ensures
        pages_ascend(interpolated(offsets, total)),
        covers_book(interpolated(offsets, total), total as int),
        forall|i: int| 0 <= i < offsets.len() ==> interpolated(offsets, total).contains(
            #[trigger] offsets[i],
        ),
        forall|p: int|
            0 <= p < interpolated(offsets, total).len() ==> {
                let entry = #[trigger] interpolated(offsets, total)[p];
                offsets.contains(entry) || (entry == PageOffsetResult::spec_no_offset(
                    entry.physical_page,
                ) && 1 <= entry.physical_page <= total && !has_page(
                    offsets,
                    entry.physical_page as int,
                ))
            },
{
    let all = with_missing_pages(offsets, total);
    let sorted = interpolated(offsets, total);
    lemma_with_missing_pages(offsets, total);
    lemma_sorted_by_page(all);
    assert forall|page: int| 1 <= page <= total implies #[trigger] has_page(sorted, page) by {
        assert(has_page(all, page));
        let at = choose|at: int| 0 <= at < all.len() && (#[trigger] all[at]).physical_page == page;
        assert(sorted.contains(all[at]));
        let p = choose|p: int| 0 <= p < sorted.len() && sorted[p] == all[at];
        assert(sorted[p].physical_page == page);
    }
    assert forall|i: int| 0 <= i < offsets.len() implies sorted.contains(
        #[trigger] offsets[i],
    ) by {
        assert(all[i] == offsets[i]);
    }
    assert forall|p: int| 0 <= p < sorted.len() implies {
        let entry = #[trigger] sorted[p];
        offsets.contains(entry) || (entry == PageOffsetResult::spec_no_offset(
            entry.physical_page,
        ) && 1 <= entry.physical_page <= total && !has_page(offsets, entry.physical_page as int))
    } by {
        let entry = sorted[p];
        assert(all.contains(entry));
        let at = choose|at: int| 0 <= at < all.len() && all[at] == entry;
        if at < offsets.len() {
            assert(all[at] == offsets[at]);
        }
    }
}

/// Where the entries that are there belong to different pages of the book,
/// the completed list holds one entry for each page, in the order of the
/// pages: the entry at `i` belongs to page `i + 1`.
pub proof fn law_interpolation_is_dense(offsets: Seq<PageOffsetResult>, total: nat)
    requires
        total <= usize::MAX,
        with_missing_pages(offsets, total).len() <= usize::MAX,
        pages_distinct(offsets),
        pages_in_book(offsets, total as int),
    ensures
        interpolated(offsets, total).len() == total,
        forall|i: int|
            0 <= i < total ==> (#[trigger] interpolated(offsets, total)[i]).physical_page == i
                + 1,
{
    let all = with_missing_pages(offsets, total);
    let sorted = interpolated(offsets, total);
    lemma_with_missing_pages(offsets, total);
    assert(pages_distinct(all)) by {
        assert forall|p: int, q: int| 0 <= p < q < all.len() implies (
        #[trigger] all[p]).physical_page != (#[trigger] all[q]).physical_page by {
            if q < offsets.len() {
                assert(all[p] == offsets[p] && all[q] == offsets[q]);
            } else if p < offsets.len() {
                assert(all[p] == offsets[p]);
                assert(!has_page(offsets, all[q].physical_page as int));
            }
        }
    }
    assert(pages_in_book(all, total as int)) by {
        assert forall|p: int| 0 <= p < all.len() implies 1 <= (#[trigger] all[p]).physical_page
            <= total by {
            if p < offsets.len() {
                assert(all[p] == offsets[p]);
            }
        }
    }
    lemma_sorted_by_page(all);
    law_interpolation_completes(offsets, total);
    assert(pages_in_book(sorted, total as int)) by {
        assert forall|p: int| 0 <= p < sorted.len() implies 1 <= (
        #[trigger] sorted[p]).physical_page <= total by {
            assert(all.contains(sorted[p]));
            let at = choose|at: int| 0 <= at < all.len() && all[at] == sorted[p];
            assert(1 <= all[at].physical_page <= total);
        }
    }
    assert forall|i: int| 0 <= i < sorted.len() implies (#[trigger] sorted[i]).physical_page
        == i + 1 by {
        lemma_dense_at(sorted, total as int, i);
    }
    if sorted.len() < total {
        assert(has_page(sorted, total as int));
        let j = choose|j: int|
            0 <= j < sorted.len() && (#[trigger] sorted[j]).physical_page == total;
        assert(sorted[j].physical_page == j + 1);
    }
    if sorted.len() > total {
        assert(sorted[sorted.len() - 1].physical_page == sorted.len());
    }
}

} // verus!
