//! The figures of a page: what a page is by the area that its text covers,
//! which regions count as figures, how overlapping regions are merged, where
//! the content of an image lies, and which box is cut out around a region.
//!
//! The pixels themselves are read elsewhere; what is decided on them is
//! decided here.

use vstd::prelude::*;
use crate::numeric::clamp_u32;

verus! {

/// What can go wrong while figures are looked for.
#[derive(Debug)]
pub enum FigureDetectError {
    /// The image could not be loaded.
    ImageLoadFailed(String),
    /// The image could not be processed.
    ProcessingError(String),
    /// Reading or writing failed.
    IoError(std::io::Error),
}

impl From<std::io::Error> for FigureDetectError {
    fn from(e: std::io::Error) -> (r: Self) {
        FigureDetectError::IoError(e)
    }
}

impl vstd::std_specs::convert::FromSpecImpl<std::io::Error> for FigureDetectError {
    open spec fn obeys_from_spec() -> bool {
        true
    }

    open spec fn from_spec(e: std::io::Error) -> Self {
        FigureDetectError::IoError(e)
    }
}

/// The kind of a region.
#[derive(Debug, Clone, Copy, PartialEq, Eq, Structural)]
pub enum RegionType {
    /// A figure within a page: a diagram, a chart, a photograph.
    Figure,
    /// A page that is an image as a whole.
    FullPageImage,
    /// The cover.
    Cover,
}

/// A region of a page that holds a figure.
#[derive(Debug, Clone, Copy, PartialEq, Eq)]
pub struct FigureRegion {
    /// The box of the region: left, top, width, height.
    pub bbox: (u32, u32, u32, u32),
    /// The area in pixels.
    pub area: u32,
    /// The kind of the region.
    pub region_type: RegionType,
}

/// What a page is.
#[derive(Debug)]
pub enum PageClassification {
    /// The cover: the first page, mostly image.
    Cover,
    /// An image as a whole, without text to speak of.
    FullPageImage,
    /// Text with figures in it.
    Mixed { figures: Vec<FigureRegion> },
    /// Text only.
    TextOnly,
}

impl Clone for PageClassification {
    fn clone(&self) -> (c: Self)
        ensures
            match (*self, c) {
                (PageClassification::Cover, PageClassification::Cover) => true,
                (PageClassification::FullPageImage, PageClassification::FullPageImage) => true,
                (PageClassification::TextOnly, PageClassification::TextOnly) => true,
                (
                    PageClassification::Mixed { figures: mine },
                    PageClassification::Mixed { figures: theirs },
                ) => theirs@ == mine@,
                _ => false,
            },
    {
        match self {
            PageClassification::Cover => PageClassification::Cover,
            PageClassification::FullPageImage => PageClassification::FullPageImage,
            PageClassification::TextOnly => PageClassification::TextOnly,
            PageClassification::Mixed { figures } => {
                let n: usize = figures.len();
                let mut copy: Vec<FigureRegion> = Vec::new();
                let mut i: usize = 0;
                while i < n
                    invariant
                        i <= n == figures.len(),
                        copy@ == figures@.take(i as int),
                    decreases n - i,
                {
                    copy.push(figures[i]);
                    assert(copy@ =~= figures@.take(i as int + 1));
                    i += 1;
                }
                assert(figures@.take(n as int) =~= figures@);
                PageClassification::Mixed { figures: copy }
            },
        }
    }
}

/// The first column right of a region.
pub open spec fn right_of(r: FigureRegion) -> int {
    r.bbox.0 as int + r.bbox.2 as int
}

/// The first row below a region.
pub open spec fn bottom_of(r: FigureRegion) -> int {
    r.bbox.1 as int + r.bbox.3 as int
}

/// Whether two regions overlap.
pub open spec fn overlap(a: FigureRegion, b: FigureRegion) -> bool {
    &&& a.bbox.0 < right_of(b)
    &&& right_of(a) > b.bbox.0
    &&& a.bbox.1 < bottom_of(b)
    &&& bottom_of(a) > b.bbox.1
}

/// Whether region `a` covers region `b`.
pub open spec fn covers(a: FigureRegion, b: FigureRegion) -> bool {
    &&& a.bbox.0 <= b.bbox.0
    &&& a.bbox.1 <= b.bbox.1
    &&& right_of(b) <= right_of(a)
    &&& bottom_of(b) <= bottom_of(a)
}

/// Whether the coordinates of the region's far corner fit in 32 bits.
pub open spec fn fits(r: FigureRegion) -> bool {
    right_of(r) <= u32::MAX && bottom_of(r) <= u32::MAX
}

/// The smallest figure region that covers both regions; its area is
/// limited to 32 bits.
pub open spec fn hull(a: FigureRegion, b: FigureRegion) -> FigureRegion {
    let x1 = if a.bbox.0 <= b.bbox.0 { a.bbox.0 } else { b.bbox.0 };
    let y1 = if a.bbox.1 <= b.bbox.1 { a.bbox.1 } else { b.bbox.1 };
    let x2 = if right_of(a) >= right_of(b) { right_of(a) } else { right_of(b) };
    let y2 = if bottom_of(a) >= bottom_of(b) { bottom_of(a) } else { bottom_of(b) };
    FigureRegion {
        bbox: (x1, y1, (x2 - x1) as u32, (y2 - y1) as u32),
        area: clamp_u32((x2 - x1) * (y2 - y1)) as u32,
        region_type: RegionType::Figure,
    }
}

/// Whether every region fits.
pub open spec fn all_fit(regions: Seq<FigureRegion>) -> bool {
    forall|i: int| 0 <= i < regions.len() ==> fits(#[trigger] regions[i])
}

/// Whether no two of the regions overlap.
pub open spec fn none_overlap(regions: Seq<FigureRegion>) -> bool {
    forall|i: int, j: int|
        0 <= i < j < regions.len() ==> !overlap(#[trigger] regions[i], #[trigger] regions[j])
}

/// Whether one of `regions` covers `r`.
pub open spec fn covered_by(r: FigureRegion, regions: Seq<FigureRegion>) -> bool {
    exists|m: int| 0 <= m < regions.len() && covers(#[trigger] regions[m], r)
}

/// Whether each region of `before` is covered by a region of `after`.
pub open spec fn all_covered(before: Seq<FigureRegion>, after: Seq<FigureRegion>) -> bool {
    forall|k: int| 0 <= k < before.len() ==> covered_by(#[trigger] before[k], after)
}

/// Whether the region is a figure whose area is that of its box, limited
/// to 32 bits.
pub open spec fn is_plain_figure(r: FigureRegion) -> bool {
    r.region_type == RegionType::Figure && r.area == clamp_u32(
        r.bbox.2 as int * r.bbox.3 as int,
    )
}

/// Whether the region is made of regions of the list: it is one of them or
/// a plain figure, and each of its four edges is an edge of a region of the
/// list that it covers.
#[verifier::opaque]
pub open spec fn made_of(r: FigureRegion, regions: Seq<FigureRegion>) -> bool {
    &&& regions.contains(r) || is_plain_figure(r)
    &&& exists|a: int|
        0 <= a < regions.len() && covers(r, #[trigger] regions[a]) && regions[a].bbox.0 == r.bbox.0
    &&& exists|a: int|
        0 <= a < regions.len() && covers(r, #[trigger] regions[a]) && regions[a].bbox.1 == r.bbox.1
    &&& exists|a: int|
        0 <= a < regions.len() && covers(r, #[trigger] regions[a]) && right_of(regions[a])
            == right_of(r)
    &&& exists|a: int|
        0 <= a < regions.len() && covers(r, #[trigger] regions[a]) && bottom_of(regions[a])
            == bottom_of(r)
}

/// Whether each region of `after` is made of regions of `before`.
#[verifier::opaque]
pub open spec fn all_made_of(after: Seq<FigureRegion>, before: Seq<FigureRegion>) -> bool {
    forall|m: int| 0 <= m < after.len() ==> made_of(#[trigger] after[m], before)
}

/// The smallest region that covers two regions made of regions of a list is
/// made of regions of the list.
pub proof fn lemma_hull_made_of(a: FigureRegion, b: FigureRegion, regions: Seq<FigureRegion>)
    requires
        fits(a),
        fits(b),
        made_of(a, regions),
        made_of(b, regions),
    ensures
        made_of(hull(a, b), regions),
{
    reveal(made_of);
    let h = hull(a, b);
    assert(covers(h, a) && covers(h, b));
    let left = if a.bbox.0 <= b.bbox.0 { a } else { b };
    let top = if a.bbox.1 <= b.bbox.1 { a } else { b };
    let right = if right_of(a) >= right_of(b) { a } else { b };
    let bottom = if bottom_of(a) >= bottom_of(b) { a } else { b };
    let la = choose|k: int|
        0 <= k < regions.len() && covers(left, #[trigger] regions[k]) && regions[k].bbox.0
            == left.bbox.0;
    assert(covers(h, regions[la]) && regions[la].bbox.0 == h.bbox.0);
    let ta = choose|k: int|
        0 <= k < regions.len() && covers(top, #[trigger] regions[k]) && regions[k].bbox.1
            == top.bbox.1;
    assert(covers(h, regions[ta]) && regions[ta].bbox.1 == h.bbox.1);
    let ra = choose|k: int|
        0 <= k < regions.len() && covers(right, #[trigger] regions[k]) && right_of(regions[k])
            == right_of(right);
    assert(covers(h, regions[ra]) && right_of(regions[ra]) == right_of(h));
    let ba = choose|k: int|
        0 <= k < regions.len() && covers(bottom, #[trigger] regions[k]) && bottom_of(regions[k])
            == bottom_of(bottom);
    assert(covers(h, regions[ba]) && bottom_of(regions[ba]) == bottom_of(h));
}

/// Every region of a list is made of regions of the list.
pub proof fn lemma_made_of_itself(regions: Seq<FigureRegion>)
    ensures
        all_made_of(regions, regions),
{
    reveal(made_of);
    reveal(all_made_of);
    assert forall|m: int| 0 <= m < regions.len() implies made_of(
        #[trigger] regions[m],
        regions,
    ) by {
        assert(covers(regions[m], regions[m]));
        assert(regions.contains(regions[m]));
    }
}

/// The part of a text box that lies on an image of the given extent, in
/// pixels.
pub open spec fn visible_area(bbox: (u32, u32, u32, u32), img_w: u32, img_h: u32) -> int {
    let room_w = if img_w >= bbox.0 { img_w - bbox.0 } else { 0 };
    let room_h = if img_h >= bbox.1 { img_h - bbox.1 } else { 0 };
    let w = if bbox.2 <= room_w { bbox.2 as int } else { room_w };
    let h = if bbox.3 <= room_h { bbox.3 as int } else { room_h };
    w * h
}

/// The sum of the visible areas of text boxes.
pub open spec fn text_area(bboxes: Seq<(u32, u32, u32, u32)>, img_w: u32, img_h: u32) -> int
    decreases bboxes.len(),
{
    if bboxes.len() == 0 {
        0
    } else {
        text_area(bboxes.drop_last(), img_w, img_h) + visible_area(bboxes.last(), img_w, img_h)
    }
}

/// The visible area of a box is at most the area of the image.
pub proof fn lemma_visible_area_bounded(bbox: (u32, u32, u32, u32), img_w: u32, img_h: u32)
    ensures
        0 <= visible_area(bbox, img_w, img_h) <= img_w * img_h,
        img_w * img_h <= 0xFFFF_FFFF * 0xFFFF_FFFF,
{
    let room_w = if img_w >= bbox.0 { img_w - bbox.0 } else { 0 };
    let room_h = if img_h >= bbox.1 { img_h - bbox.1 } else { 0 };
    let w = if bbox.2 <= room_w { bbox.2 as int } else { room_w };
    let h = if bbox.3 <= room_h { bbox.3 as int } else { room_h };
    assert(0 <= w * h <= img_w * img_h) by (nonlinear_arith)
        requires
            0 <= w <= img_w,
            0 <= h <= img_h,
    ;
    assert(img_w * img_h <= 0xFFFF_FFFF * 0xFFFF_FFFF) by (nonlinear_arith)
        requires
            0 <= img_w <= 0xFFFF_FFFF,
            0 <= img_h <= 0xFFFF_FFFF,
    ;
}

/// The sum of visible areas is at most the area of the image times the
/// number of boxes.
pub proof fn lemma_text_area_bounded(bboxes: Seq<(u32, u32, u32, u32)>, img_w: u32, img_h: u32)
    ensures
        0 <= text_area(bboxes, img_w, img_h) <= bboxes.len() * (0xFFFF_FFFF * 0xFFFF_FFFF),
    decreases bboxes.len(),
{
    if bboxes.len() > 0 {
        lemma_text_area_bounded(bboxes.drop_last(), img_w, img_h);
        lemma_visible_area_bounded(bboxes.last(), img_w, img_h);
        let n = bboxes.len() as int;
        let most: int = 0xFFFF_FFFFint * 0xFFFF_FFFFint;
        assert((n - 1) * most + most == n * most) by (nonlinear_arith);
    }
}

/// Finds the figures of scanned pages.
pub struct FigureDetector;

impl FigureDetector {
    /// The area that text boxes cover on an image of the given extent, each
    /// box cut at the image's right and lower edge. Boxes that lie over one
    /// another count more than once.
    pub fn calculate_text_area(bboxes: &[(u32, u32, u32, u32)], img_w: u32, img_h: u32) -> (total:
        u128)
        ensures
            total == text_area(bboxes@, img_w, img_h),
    {
        let n: usize = bboxes.len();
        let mut total: u128 = 0;
        let mut i: usize = 0;
        assert(bboxes@.take(0) =~= Seq::<(u32, u32, u32, u32)>::empty());
        while i < n
            invariant
                i <= n == bboxes.len(),
                total == text_area(bboxes@.take(i as int), img_w, img_h),
            decreases n - i,
        {
            let b = bboxes[i];
            proof {
                let longer = bboxes@.take(i as int + 1);
                assert(longer.drop_last() =~= bboxes@.take(i as int));
                assert(longer.last() == b);
                lemma_text_area_bounded(bboxes@.take(i as int), img_w, img_h);
                lemma_visible_area_bounded(b, img_w, img_h);
                let most: int = 0xFFFF_FFFFint * 0xFFFF_FFFFint;
                assert(i * most <= usize::MAX * most) by (nonlinear_arith)
                    requires
                        0 <= i <= usize::MAX,
                        most >= 0,
                ;
            }
            let room_w: u32 = if img_w >= b.0 { img_w - b.0 } else { 0 };
            let room_h: u32 = if img_h >= b.1 { img_h - b.1 } else { 0 };
            let w: u32 = if b.2 <= room_w { b.2 } else { room_w };
            let h: u32 = if b.3 <= room_h { b.3 } else { room_h };
            assert(0 <= w as int * h as int <= 0xFFFF_FFFF * 0xFFFF_FFFF) by (nonlinear_arith)
                requires
                    0 <= w <= 0xFFFF_FFFF,
                    0 <= h <= 0xFFFF_FFFF,
            ;
            total = total + (w as u64 * h as u64) as u128;
            i += 1;
        }
        assert(bboxes@.take(n as int) =~= bboxes@);
        total
    }

    /// Whether two regions overlap.
    pub fn regions_overlap(a: &FigureRegion, b: &FigureRegion) -> (shared: bool)
        ensures
            shared == overlap(*a, *b),
    {
        let a_right: u64 = a.bbox.0 as u64 + a.bbox.2 as u64;
        let a_bottom: u64 = a.bbox.1 as u64 + a.bbox.3 as u64;
        let b_right: u64 = b.bbox.0 as u64 + b.bbox.2 as u64;
        let b_bottom: u64 = b.bbox.1 as u64 + b.bbox.3 as u64;
        (a.bbox.0 as u64) < b_right && a_right > b.bbox.0 as u64 && (a.bbox.1 as u64) < b_bottom
            && a_bottom > b.bbox.1 as u64
    }

    /// The smallest figure region that covers both regions.
    pub fn merge_pair(a: &FigureRegion, b: &FigureRegion) -> (merged: FigureRegion)
        requires
            fits(*a),
            fits(*b),
        ensures
            merged == hull(*a, *b),
            fits(merged),
            covers(merged, *a),
            covers(merged, *b),
    {
        let x1: u32 = if a.bbox.0 <= b.bbox.0 { a.bbox.0 } else { b.bbox.0 };
        let y1: u32 = if a.bbox.1 <= b.bbox.1 { a.bbox.1 } else { b.bbox.1 };
        let a_right: u32 = a.bbox.0 + a.bbox.2;
        let b_right: u32 = b.bbox.0 + b.bbox.2;
        let a_bottom: u32 = a.bbox.1 + a.bbox.3;
        let b_bottom: u32 = b.bbox.1 + b.bbox.3;
        let x2: u32 = if a_right >= b_right { a_right } else { b_right };
        let y2: u32 = if a_bottom >= b_bottom { a_bottom } else { b_bottom };
        let w: u32 = x2 - x1;
        let h: u32 = y2 - y1;
        assert(0 <= w as int * h as int <= 0xFFFF_FFFF * 0xFFFF_FFFF) by (nonlinear_arith)
            requires
                0 <= w <= 0xFFFF_FFFF,
                0 <= h <= 0xFFFF_FFFF,
        ;
        let area: u64 = w as u64 * h as u64;
        FigureRegion {
            bbox: (x1, y1, w, h),
            area: if area > u32::MAX as u64 { u32::MAX } else { area as u32 },
            region_type: RegionType::Figure,
        }
    }

    /// Merges the region at `j` into the region at `i`: the region at `i`
    /// becomes the smallest figure region that covers both, and the region
    /// at `j` leaves the list.
    pub fn absorb(figures: &mut Vec<FigureRegion>, i: usize, j: usize)
        requires
            i < j < old(figures)@.len(),
            all_fit(old(figures)@),
        ensures
            final(figures)@ == old(figures)@.update(
                i as int,
                hull(old(figures)@[i as int], old(figures)@[j as int]),
            ).remove(j as int),
            final(figures)@.len() == old(figures)@.len() - 1,
            all_fit(final(figures)@),
            all_covered(old(figures)@, final(figures)@),
    {
        let ghost earlier = figures@;
        let first = figures[i];
        let second = figures[j];
        let joined = Self::merge_pair(&first, &second);
        figures.set(i, joined);
        figures.remove(j);
        proof {
            let now = figures@;
            assert forall|k: int| 0 <= k < earlier.len() implies covered_by(
                #[trigger] earlier[k],
                now,
            ) by {
                if k == i || k == j {
                    assert(covers(now[i as int], earlier[k]));
                } else if k < j {
                    assert(now[k] == earlier[k]);
                    assert(covers(now[k], earlier[k]));
                } else {
                    assert(now[k - 1] == earlier[k]);
                    assert(covers(now[k - 1], earlier[k]));
                }
            }
            assert forall|m: int| 0 <= m < now.len() implies fits(#[trigger] now[m]) by {
                if m == i {
                } else if m < j {
                    assert(now[m] == earlier[m]);
                } else {
                    assert(now[m] == earlier[m + 1]);
                }
            }
        }
    }

    /// Goes through the regions once and merges each region with the
    /// regions behind it that overlap it. Tells whether it merged any.
    pub fn merge_pass(figures: &mut Vec<FigureRegion>) -> (merged: bool)
        requires
            all_fit(old(figures)@),
        ensures
            all_fit(final(figures)@),
            all_covered(old(figures)@, final(figures)@),
            all_made_of(final(figures)@, old(figures)@),
            merged ==> final(figures)@.len() < old(figures)@.len(),
            merged ==> !none_overlap(old(figures)@),
            !merged ==> final(figures)@ == old(figures)@ && none_overlap(final(figures)@),
    {
        let ghost before = figures@;
        let mut merged = false;
        let mut i: usize = 0;
        proof {
            lemma_covered_by_itself(before);
            lemma_made_of_itself(before);
        }
        while i < figures.len()
            invariant
                all_fit(figures@),
                all_covered(before, figures@),
                all_made_of(figures@, before),
                figures@.len() <= before.len(),
                merged ==> figures@.len() < before.len(),
                merged ==> !none_overlap(before),
                !merged ==> figures@ == before,
                !merged ==> forall|a: int, b: int|
                    0 <= a < i && a < b < figures@.len() ==> !overlap(
                        #[trigger] figures@[a],
                        #[trigger] figures@[b],
                    ),
            decreases figures.len() - i,
        {
            let ghost length = figures@.len();
            let mut j: usize = i + 1;
            while j < figures.len()
                invariant
                    i < j,
                    i < figures@.len() <= length,
                    all_fit(figures@),
                    all_covered(before, figures@),
                    all_made_of(figures@, before),
                    figures@.len() <= before.len(),
                    merged ==> figures@.len() < before.len(),
                    merged ==> !none_overlap(before),
                    !merged ==> figures@ == before,
                    !merged ==> forall|a: int, b: int|
                        0 <= a < i && a < b < figures@.len() ==> !overlap(
                            #[trigger] figures@[a],
                            #[trigger] figures@[b],
                        ),
                    !merged ==> forall|b: int|
                        i < b < j && b < figures@.len() ==> !overlap(
                            figures@[i as int],
                            #[trigger] figures@[b],
                        ),
                decreases figures.len() - j,
            {
                let first = figures[i];
                let second = figures[j];
                if Self::regions_overlap(&first, &second) {
                    let ghost earlier = figures@;
                    proof {
                        if !merged {
                            assert(overlap(before[i as int], before[j as int]));
                        }
                    }
                    Self::absorb(figures, i, j);
                    merged = true;
                    proof {
                        lemma_covered_chain(before, earlier, figures@);
                        lemma_absorb_made_of(earlier, figures@, before, i as int, j as int);
                    }
                } else {
                    j += 1;
                }
            }
            i += 1;
        }
        merged
    }

    /// Merges regions that overlap, until no two regions overlap. A merged
    /// region is the smallest figure region that covers the regions it is
    /// made of.
    pub fn merge_overlapping(figures: &mut Vec<FigureRegion>)
        requires
            all_fit(old(figures)@),
        ensures
            none_overlap(final(figures)@),
            all_covered(old(figures)@, final(figures)@),
            all_made_of(final(figures)@, old(figures)@),
            all_fit(final(figures)@),
            final(figures)@.len() <= old(figures)@.len(),
            none_overlap(old(figures)@) ==> final(figures)@ == old(figures)@,
    {
        let ghost before = figures@;
        proof {
            lemma_covered_by_itself(before);
            lemma_made_of_itself(before);
        }
        loop
            invariant
                all_fit(figures@),
                all_covered(before, figures@),
                all_made_of(figures@, before),
                figures@.len() <= before.len(),
                none_overlap(before) ==> figures@ == before,
            ensures
                none_overlap(figures@),
                all_fit(figures@),
                all_covered(before, figures@),
                all_made_of(figures@, before),
                figures@.len() <= before.len(),
                none_overlap(before) ==> figures@ == before,
            decreases figures@.len(),
        {
            let ghost earlier = figures@;
            let merged = Self::merge_pass(figures);
            proof {
                lemma_covered_chain(before, earlier, figures@);
                lemma_made_of_chain(figures@, earlier, before);
            }
            if !merged {
                break;
            }
        }
    }
}

/// Every list of regions covers itself.
pub proof fn lemma_covered_by_itself(regions: Seq<FigureRegion>)
    ensures
        all_covered(regions, regions),
{
    assert forall|k: int| 0 <= k < regions.len() implies covered_by(
        #[trigger] regions[k],
        regions,
    ) by {
        assert(covers(regions[k], regions[k]));
    }
}

/// Regions that cover regions that cover a list cover the list.
pub proof fn lemma_covered_chain(
    first: Seq<FigureRegion>,
    second: Seq<FigureRegion>,
    third: Seq<FigureRegion>,
)
    requires
        all_covered(first, second),
        all_covered(second, third),
    ensures
        all_covered(first, third),
{
    assert forall|k: int| 0 <= k < first.len() implies covered_by(#[trigger] first[k], third) by {
        assert(covered_by(first[k], second));
        let m = choose|m: int| 0 <= m < second.len() && covers(#[trigger] second[m], first[k]);
        assert(covered_by(second[m], third));
        let at = choose|at: int| 0 <= at < third.len() && covers(#[trigger] third[at], second[m]);
        assert(covers(third[at], first[k]));
    }
}

/// Regions made of regions that are made of regions of a list are made of
/// regions of the list.
pub proof fn lemma_made_of_chain(
    third: Seq<FigureRegion>,
    second: Seq<FigureRegion>,
    first: Seq<FigureRegion>,
)
    requires
        all_made_of(third, second),
        all_made_of(second, first),
    ensures
        all_made_of(third, first),
{
    reveal(made_of);
    reveal(all_made_of);
    assert forall|m: int| 0 <= m < third.len() implies made_of(#[trigger] third[m], first) by {
        let r = third[m];
        assert(made_of(r, second));
        if second.contains(r) {
            let at = choose|k: int| 0 <= k < second.len() && second[k] == r;
            assert(made_of(second[at], first));
        }
        let l2 = choose|k: int|
            0 <= k < second.len() && covers(r, #[trigger] second[k]) && second[k].bbox.0
                == r.bbox.0;
        assert(made_of(second[l2], first));
        let l1 = choose|k: int|
            0 <= k < first.len() && covers(second[l2], #[trigger] first[k]) && first[k].bbox.0
                == second[l2].bbox.0;
        assert(covers(r, first[l1]) && first[l1].bbox.0 == r.bbox.0);
        let t2 = choose|k: int|
            0 <= k < second.len() && covers(r, #[trigger] second[k]) && second[k].bbox.1
                == r.bbox.1;
        assert(made_of(second[t2], first));
        let t1 = choose|k: int|
            0 <= k < first.len() && covers(second[t2], #[trigger] first[k]) && first[k].bbox.1
                == second[t2].bbox.1;
        assert(covers(r, first[t1]) && first[t1].bbox.1 == r.bbox.1);
        let r2 = choose|k: int|
            0 <= k < second.len() && covers(r, #[trigger] second[k]) && right_of(second[k])
                == right_of(r);
        assert(made_of(second[r2], first));
        let r1 = choose|k: int|
            0 <= k < first.len() && covers(second[r2], #[trigger] first[k]) && right_of(first[k])
                == right_of(second[r2]);
        assert(covers(r, first[r1]) && right_of(first[r1]) == right_of(r));
        let b2 = choose|k: int|
            0 <= k < second.len() && covers(r, #[trigger] second[k]) && bottom_of(second[k])
                == bottom_of(r);
        assert(made_of(second[b2], first));
        let b1 = choose|k: int|
            0 <= k < first.len() && covers(second[b2], #[trigger] first[k]) && bottom_of(
                first[k],
            ) == bottom_of(second[b2]);
        assert(covers(r, first[b1]) && bottom_of(first[b1]) == bottom_of(r));
    }
}

/// Where regions are made of regions of a list, they still are after one
/// of them was merged into another.
pub proof fn lemma_absorb_made_of(
    earlier: Seq<FigureRegion>,
    now: Seq<FigureRegion>,
    before: Seq<FigureRegion>,
    i: int,
    j: int,
)
    requires
        0 <= i < j < earlier.len(),
        all_fit(earlier),
        all_made_of(earlier, before),
        now == earlier.update(i, hull(earlier[i], earlier[j])).remove(j),
    ensures
        all_made_of(now, before),
{
    reveal(all_made_of);
    assert(made_of(earlier[i], before) && made_of(earlier[j], before));
    lemma_hull_made_of(earlier[i], earlier[j], before);
    assert forall|m: int| 0 <= m < now.len() implies made_of(#[trigger] now[m], before) by {
        if m == i {
        } else if m < j {
            assert(now[m] == earlier[m]);
        } else {
            assert(now[m] == earlier[m + 1]);
        }
    }
}

/// The settings of figure detection. Parts and ratios count millionths.
#[derive(Debug, Clone, Copy, PartialEq, Eq, Structural)]
pub struct FigureDetectOptions {
    /// The least area of a figure, as a part of the area of the page.
    pub min_area_fraction: u32,
    /// The largest ratio of the longer side of a figure to its shorter
    /// side.
    pub max_aspect_ratio: u32,
    /// A page whose text covers less than this part of it is an image as a
    /// whole.
    pub fullpage_text_threshold: u32,
    /// A page whose text covers more than this part of it is text only.
    pub textonly_text_threshold: u32,
    /// The margin that is laid around text, in pixels.
    pub dilation_size: u32,
    /// A pixel darker than this holds content.
    pub binary_threshold: u8,
}

impl Default for FigureDetectOptions {
    /// Figures from 2 percent of the page on and up to ten times as long
    /// as wide; text below 5 percent makes an image, text above 80 percent
    /// a page of text; a margin of 15 pixels; content below 200.
    fn default() -> (o: Self)
        ensures
            o == (FigureDetectOptions {
                min_area_fraction: 20_000,
                max_aspect_ratio: 10_000_000,
                fullpage_text_threshold: 50_000,
                textonly_text_threshold: 800_000,
                dilation_size: 15,
                binary_threshold: 200,
            }),
    {
        FigureDetectOptions {
            min_area_fraction: 20_000,
            max_aspect_ratio: 10_000_000,
            fullpage_text_threshold: 50_000,
            textonly_text_threshold: 800_000,
            dilation_size: 15,
            binary_threshold: 200,
        }
    }
}

/// The least area of a figure at no sensitivity at all: 5 percent of the
/// page, in millionths.
pub const INSENSITIVE_AREA_FRACTION: u32 = 50_000;

/// The least area of a figure for a sensitivity from nothing to one whole,
/// in millionths: the more sensitive, the smaller the figures that are
/// found. A sensitivity above one whole counts as one whole.
pub open spec fn sensitive_area_fraction(sensitivity: u32) -> int {
    let limited = if sensitivity > 1_000_000 { 1_000_000 } else { sensitivity as int };
    INSENSITIVE_AREA_FRACTION * (1_000_000 - limited) / 1_000_000
}

impl FigureDetectOptions {
    /// The settings with the least area of a figure set by a sensitivity.
    pub fn with_sensitivity(self, sensitivity: u32) -> (o: Self)
        ensures
            o.min_area_fraction == sensitive_area_fraction(sensitivity),
            o.max_aspect_ratio == self.max_aspect_ratio,
            o.fullpage_text_threshold == self.fullpage_text_threshold,
            o.textonly_text_threshold == self.textonly_text_threshold,
            o.dilation_size == self.dilation_size,
            o.binary_threshold == self.binary_threshold,
    {
        let limited: u64 = if sensitivity > 1_000_000 { 1_000_000 } else { sensitivity as u64 };
        let fraction: u64 = INSENSITIVE_AREA_FRACTION as u64 * (1_000_000 - limited) / 1_000_000;
        FigureDetectOptions {
            min_area_fraction: fraction as u32,
            max_aspect_ratio: self.max_aspect_ratio,
            fullpage_text_threshold: self.fullpage_text_threshold,
            textonly_text_threshold: self.textonly_text_threshold,
            dilation_size: self.dilation_size,
            binary_threshold: self.binary_threshold,
        }
    }
}

/// What a page is by the area that its text covers, where that decides it.
pub enum TextCoverage {
    /// The first page, with hardly any text.
    Cover,
    /// A later page with hardly any text.
    FullPageImage,
    /// A page of text, or a page without area.
    TextOnly,
    /// Neither: the figures of the page decide.
    Undecided,
}

/// What a page is by the area that its text covers: a page without area is
/// text; a page whose text covers less than the lower threshold is the
/// cover where it is the first page and else an image as a whole; a page
/// whose text covers more than the upper threshold is text; any other page
/// is decided by its figures.
pub open spec fn coverage_class(
    img_w: u32,
    img_h: u32,
    text_area: int,
    page_index: usize,
    options: FigureDetectOptions,
) -> TextCoverage {
    let page_area = img_w as int * img_h as int;
    if page_area == 0 {
        TextCoverage::TextOnly
    } else if text_area * 1_000_000 < options.fullpage_text_threshold * page_area {
        if page_index == 0 {
            TextCoverage::Cover
        } else {
            TextCoverage::FullPageImage
        }
    } else if text_area * 1_000_000 > options.textonly_text_threshold * page_area {
        TextCoverage::TextOnly
    } else {
        TextCoverage::Undecided
    }
}

/// The least area of a figure on a page of the given extent, rounded down.
pub open spec fn least_figure_area(img_w: u32, img_h: u32, options: FigureDetectOptions) -> int {
    img_w as int * img_h as int * options.min_area_fraction as int / 1_000_000
}

/// Whether a region of the given extent is a figure: it has the least area,
/// and where it has both width and height, its longer side is no more than
/// the largest ratio times its shorter side.
pub open spec fn is_figure_extent(w: u32, h: u32, least_area: int, max_aspect_ratio: u32) -> bool {
    let longer = if w > h { w } else { h };
    let shorter = if w > h { h } else { w };
    w as int * h as int >= least_area && (w == 0 || h == 0 || longer as int * 1_000_000
        <= max_aspect_ratio as int * shorter as int)
}

/// The part of the image that a text box takes with the margin around it,
/// as the first and the last column and row, the last ones excluded.
pub open spec fn text_mask(bbox: (u32, u32, u32, u32), dilation: u32, img_w: u32, img_h: u32) -> (
    u32,
    u32,
    u32,
    u32,
) {
    let right = bbox.0 as int + bbox.2 as int + dilation as int;
    let bottom = bbox.1 as int + bbox.3 as int + dilation as int;
    (
        if bbox.0 >= dilation { (bbox.0 - dilation) as u32 } else { 0 },
        if bbox.1 >= dilation { (bbox.1 - dilation) as u32 } else { 0 },
        if right < img_w { right as u32 } else { img_w },
        if bottom < img_h { bottom as u32 } else { img_h },
    )
}

/// The box that is cut out around a region: the region with a margin of
/// the given percentage of its extent on every side, rounded as told, and
/// cut at the edges of the image.
pub open spec fn crop_box(
    bbox: (u32, u32, u32, u32),
    margin_x: int,
    margin_y: int,
    img_w: u32,
    img_h: u32,
) -> (u32, u32, u32, u32) {
    let x = if bbox.0 >= margin_x { bbox.0 - margin_x } else { 0 };
    let y = if bbox.1 >= margin_y { bbox.1 - margin_y } else { 0 };
    let room_w = if img_w >= x { img_w - x } else { 0 };
    let room_h = if img_h >= y { img_h - y } else { 0 };
    let w = if bbox.2 + 2 * margin_x <= room_w { bbox.2 + 2 * margin_x } else { room_w };
    let h = if bbox.3 + 2 * margin_y <= room_h { bbox.3 + 2 * margin_y } else { room_h };
    (x as u32, y as u32, w as u32, h as u32)
}

/// Whether the pixel in column `x` and row `y` holds content: it is darker
/// than the threshold.
pub open spec fn has_content_at(pixels: Seq<u8>, width: u32, x: int, y: int, threshold: u8) -> bool {
    pixels[y * width + x] < threshold
}

/// Whether a box bounds the content of an image tightly: content lies in
/// its first and last column and row, and none outside it.
pub open spec fn bounds_content(
    pixels: Seq<u8>,
    width: u32,
    height: u32,
    threshold: u8,
    bounds: (u32, u32, u32, u32),
) -> bool {
    let right = bounds.0 + bounds.2;
    let bottom = bounds.1 + bounds.3;
    &&& bounds.2 >= 1 && bounds.3 >= 1
    &&& right <= width && bottom <= height
    &&& forall|x: int, y: int|
        0 <= x < width && 0 <= y < height && #[trigger] has_content_at(
            pixels,
            width,
            x,
            y,
            threshold,
        ) ==> bounds.0 <= x < right && bounds.1 <= y < bottom
    &&& exists|y: int|
        bounds.1 <= y < bottom && #[trigger] has_content_at(
            pixels,
            width,
            bounds.0 as int,
            y,
            threshold,
        )
    &&& exists|y: int|
        bounds.1 <= y < bottom && #[trigger] has_content_at(
            pixels,
            width,
            right - 1,
            y,
            threshold,
        )
    &&& exists|x: int|
        bounds.0 <= x < right && #[trigger] has_content_at(
            pixels,
            width,
            x,
            bounds.1 as int,
            threshold,
        )
    &&& exists|x: int|
        bounds.0 <= x < right && #[trigger] has_content_at(
            pixels,
            width,
            x,
            bottom - 1,
            threshold,
        )
}

/// Whether an image holds no content.
pub open spec fn is_blank_image(pixels: Seq<u8>, width: u32, height: u32, threshold: u8) -> bool {
    forall|x: int, y: int|
        0 <= x < width && 0 <= y < height ==> !#[trigger] has_content_at(
            pixels,
            width,
            x,
            y,
            threshold,
        )
}

impl FigureDetector {
    /// What a page is by the area that its text covers.
    pub fn classify_by_text(
        img_w: u32,
        img_h: u32,
        text_area: u128,
        page_index: usize,
        options: &FigureDetectOptions,
    ) -> (class: TextCoverage)
        requires
            text_area <= 0xFFFF_FFFF_FFFF_FFFF_FFFF_FFFF,
        ensures
            class == coverage_class(img_w, img_h, text_area as int, page_index, *options),
    {
        assert(0 <= img_w as int * img_h as int <= 0xFFFF_FFFF * 0xFFFF_FFFF) by (nonlinear_arith)
            requires
                0 <= img_w <= 0xFFFF_FFFF,
                0 <= img_h <= 0xFFFF_FFFF,
        ;
        let page_area: u128 = img_w as u128 * img_h as u128;
        if page_area == 0 {
            return TextCoverage::TextOnly;
        }
        assert(options.fullpage_text_threshold as int * page_area as int <= 0xFFFF_FFFF * (
        0xFFFF_FFFF * 0xFFFF_FFFF) && options.textonly_text_threshold as int * page_area as int
            <= 0xFFFF_FFFF * (0xFFFF_FFFF * 0xFFFF_FFFF)) by (nonlinear_arith)
            requires
                0 <= options.fullpage_text_threshold <= 0xFFFF_FFFF,
                0 <= options.textonly_text_threshold <= 0xFFFF_FFFF,
                0 <= page_area <= 0xFFFF_FFFF * 0xFFFF_FFFF,
        ;
        let covered: u128 = text_area * 1_000_000;
        if covered < options.fullpage_text_threshold as u128 * page_area {
            if page_index == 0 {
                TextCoverage::Cover
            } else {
                TextCoverage::FullPageImage
            }
        } else if covered > options.textonly_text_threshold as u128 * page_area {
            TextCoverage::TextOnly
        } else {
            TextCoverage::Undecided
        }
    }

    /// What a page is by its figures: a page of text without them, and a
    /// page of text and figures with them.
    pub fn classify_by_figures(figures: Vec<FigureRegion>) -> (class: PageClassification)
        ensures
            figures@.len() == 0 ==> class == PageClassification::TextOnly,
            figures@.len() > 0 ==> class == (PageClassification::Mixed { figures }),
    {
        if figures.len() == 0 {
            PageClassification::TextOnly
        } else {
            PageClassification::Mixed { figures }
        }
    }

    /// The least area of a figure on a page of the given extent.
    pub fn min_figure_area(img_w: u32, img_h: u32, options: &FigureDetectOptions) -> (area: u128)
        ensures
            area == least_figure_area(img_w, img_h, *options),
    {
        assert(0 <= img_w as int * img_h as int <= 0xFFFF_FFFF * 0xFFFF_FFFF) by (nonlinear_arith)
            requires
                0 <= img_w <= 0xFFFF_FFFF,
                0 <= img_h <= 0xFFFF_FFFF,
        ;
        let page_area: u128 = img_w as u128 * img_h as u128;
        assert(0 <= page_area as int * options.min_area_fraction as int <= (0xFFFF_FFFF
            * 0xFFFF_FFFF) * 0xFFFF_FFFF) by (nonlinear_arith)
            requires
                0 <= page_area <= 0xFFFF_FFFF * 0xFFFF_FFFF,
                0 <= options.min_area_fraction <= 0xFFFF_FFFF,
        ;
        page_area * options.min_area_fraction as u128 / 1_000_000
    }

    /// Whether a region of the given extent is a figure.
    pub fn accepts_extent(w: u32, h: u32, least_area: u128, max_aspect_ratio: u32) -> (accepted:
        bool)
        ensures
            accepted == is_figure_extent(w, h, least_area as int, max_aspect_ratio),
    {
        assert(0 <= w as int * h as int <= 0xFFFF_FFFF * 0xFFFF_FFFF) by (nonlinear_arith)
            requires
                0 <= w <= 0xFFFF_FFFF,
                0 <= h <= 0xFFFF_FFFF,
        ;
        let area: u128 = w as u128 * h as u128;
        if area < least_area {
            return false;
        }
        if w == 0 || h == 0 {
            return true;
        }
        let longer: u32 = if w > h { w } else { h };
        let shorter: u32 = if w > h { h } else { w };
        assert(0 <= max_aspect_ratio as int * shorter as int <= 0xFFFF_FFFF * 0xFFFF_FFFF)
            by (nonlinear_arith)
            requires
                0 <= max_aspect_ratio <= 0xFFFF_FFFF,
                0 <= shorter <= 0xFFFF_FFFF,
        ;
        longer as u128 * 1_000_000 <= max_aspect_ratio as u128 * shorter as u128
    }

    /// The figure region between the given corners, the second ones
    /// included as the bounds of an outline are.
    pub fn region_between(min_x: u32, min_y: u32, max_x: u32, max_y: u32) -> (r: FigureRegion)
        ensures
            r.bbox == (
                min_x,
                min_y,
                if max_x >= min_x { (max_x - min_x) as u32 } else { 0 },
                if max_y >= min_y { (max_y - min_y) as u32 } else { 0 },
            ),
            is_plain_figure(r),
    {
        let w: u32 = if max_x >= min_x { max_x - min_x } else { 0 };
        let h: u32 = if max_y >= min_y { max_y - min_y } else { 0 };
        assert(0 <= w as int * h as int <= 0xFFFF_FFFF * 0xFFFF_FFFF) by (nonlinear_arith)
            requires
                0 <= w <= 0xFFFF_FFFF,
                0 <= h <= 0xFFFF_FFFF,
        ;
        let area: u64 = w as u64 * h as u64;
        FigureRegion {
            bbox: (min_x, min_y, w, h),
            area: if area > u32::MAX as u64 { u32::MAX } else { area as u32 },
            region_type: RegionType::Figure,
        }
    }

    /// The part of the image that a text box takes with the margin around
    /// it.
    pub fn text_mask_of(bbox: (u32, u32, u32, u32), dilation: u32, img_w: u32, img_h: u32) -> (mask:
        (u32, u32, u32, u32))
        ensures
            mask == text_mask(bbox, dilation, img_w, img_h),
    {
        let right: u64 = bbox.0 as u64 + bbox.2 as u64 + dilation as u64;
        let bottom: u64 = bbox.1 as u64 + bbox.3 as u64 + dilation as u64;
        (
            if bbox.0 >= dilation { bbox.0 - dilation } else { 0 },
            if bbox.1 >= dilation { bbox.1 - dilation } else { 0 },
            if right < img_w as u64 { right as u32 } else { img_w },
            if bottom < img_h as u64 { bottom as u32 } else { img_h },
        )
    }

    /// The box that is cut out for a figure: the region with a margin of 3
    /// percent of its extent, rounded down, cut at the edges of the image.
    pub fn figure_crop_box(region: &FigureRegion, img_w: u32, img_h: u32) -> (b: (
        u32,
        u32,
        u32,
        u32,
    ))
        ensures
            b == crop_box(
                region.bbox,
                region.bbox.2 as int * 3 / 100,
                region.bbox.3 as int * 3 / 100,
                img_w,
                img_h,
            ),
    {
        let margin_x: u64 = region.bbox.2 as u64 * 3 / 100;
        let margin_y: u64 = region.bbox.3 as u64 * 3 / 100;
        Self::crop_with_margin(region.bbox, margin_x, margin_y, img_w, img_h)
    }

    /// The box that is cut out around content: the bounds with a margin of
    /// 1 percent of their extent, rounded up, cut at the edges of the image.
    pub fn content_crop_box(bounds: (u32, u32, u32, u32), img_w: u32, img_h: u32) -> (b: (
        u32,
        u32,
        u32,
        u32,
    ))
        ensures
            b == crop_box(
                bounds,
                (bounds.2 as int + 99) / 100,
                (bounds.3 as int + 99) / 100,
                img_w,
                img_h,
            ),
    {
        let pad_x: u64 = (bounds.2 as u64 + 99) / 100;
        let pad_y: u64 = (bounds.3 as u64 + 99) / 100;
        Self::crop_with_margin(bounds, pad_x, pad_y, img_w, img_h)
    }

    /// The box with the given margins around it, cut at the edges of the
    /// image.
    pub fn crop_with_margin(
        bbox: (u32, u32, u32, u32),
        margin_x: u64,
        margin_y: u64,
        img_w: u32,
        img_h: u32,
    ) -> (b: (u32, u32, u32, u32))
        requires
            margin_x <= u32::MAX,
            margin_y <= u32::MAX,
        ensures
            b == crop_box(bbox, margin_x as int, margin_y as int, img_w, img_h),
    {
        let x: u32 = if bbox.0 as u64 >= margin_x { (bbox.0 as u64 - margin_x) as u32 } else { 0 };
        let y: u32 = if bbox.1 as u64 >= margin_y { (bbox.1 as u64 - margin_y) as u32 } else { 0 };
        let room_w: u32 = if img_w >= x { img_w - x } else { 0 };
        let room_h: u32 = if img_h >= y { img_h - y } else { 0 };
        let wide: u64 = bbox.2 as u64 + 2 * margin_x;
        let high: u64 = bbox.3 as u64 + 2 * margin_y;
        (
            x,
            y,
            if wide <= room_w as u64 { wide as u32 } else { room_w },
            if high <= room_h as u64 { high as u32 } else { room_h },
        )
    }

    /// The bounds of the content of an image, given its pixels row by row
    /// as shades of gray; nothing for an image without content.
    pub fn content_bounds(pixels: &[u8], width: u32, height: u32, threshold: u8) -> (found: Option<
        (u32, u32, u32, u32),
    >)
        requires
            pixels.len() == width as int * height as int,
        ensures
            match found {
                Some(bounds) => bounds_content(pixels@, width, height, threshold, bounds),
                None => is_blank_image(pixels@, width, height, threshold),
            },
    {
        let mut min_x: u32 = width;
        let mut min_y: u32 = height;
        let mut max_x: u32 = 0;
        let mut max_y: u32 = 0;
        let mut any = false;
        let mut y: u32 = 0;
        while y < height
            invariant
                y <= height,
                pixels.len() == width as int * height as int,
                content_seen(pixels@, width, threshold, y as int, any, min_x, min_y, max_x, max_y),
            decreases height - y,
        {
            let mut x: u32 = 0;
            while x < width
                invariant
                    x <= width,
                    y < height,
                    pixels.len() == width as int * height as int,
                    content_seen_in_row(
                        pixels@,
                        width,
                        threshold,
                        y as int,
                        x as int,
                        any,
                        min_x,
                        min_y,
                        max_x,
                        max_y,
                    ),
                decreases width - x,
            {
                assert(y * width + x < width * height) by (nonlinear_arith)
                    requires
                        0 <= x < width,
                        0 <= y < height,
                ;
                assert(0 <= y * width <= 0xFFFF_FFFF * 0xFFFF_FFFF) by (nonlinear_arith)
                    requires
                        0 <= y <= 0xFFFF_FFFF,
                        0 <= width <= 0xFFFF_FFFF,
                ;
                let at: u64 = y as u64 * width as u64 + x as u64;
                if pixels[at as usize] < threshold {
                    assert(has_content_at(pixels@, width, x as int, y as int, threshold));
                    if !any {
                        min_x = x;
                        min_y = y;
                        max_x = x;
                        max_y = y;
                        any = true;
                    } else {
                        if x < min_x {
                            min_x = x;
                        }
                        if x > max_x {
                            max_x = x;
                        }
                        max_y = y;
                    }
                }
                x += 1;
            }
            y += 1;
        }
        if !any {
            return None;
        }
        let bounds = (min_x, min_y, max_x - min_x + 1, max_y - min_y + 1);
        proof {
            let left = choose|y: int|
                min_y <= y <= max_y && was_seen(min_x as int, y, width, height - 1, width as int)
                    && #[trigger] has_content_at(pixels@, width, min_x as int, y, threshold);
            assert(has_content_at(pixels@, width, bounds.0 as int, left, threshold));
            let right = choose|y: int|
                min_y <= y <= max_y && was_seen(max_x as int, y, width, height - 1, width as int)
                    && #[trigger] has_content_at(pixels@, width, max_x as int, y, threshold);
            assert(has_content_at(pixels@, width, bounds.0 + bounds.2 - 1, right, threshold));
            let top = choose|x: int|
                min_x <= x <= max_x && was_seen(x, min_y as int, width, height - 1, width as int)
                    && #[trigger] has_content_at(pixels@, width, x, min_y as int, threshold);
            assert(has_content_at(pixels@, width, top, bounds.1 as int, threshold));
            let bottom = choose|x: int|
                min_x <= x <= max_x && was_seen(x, max_y as int, width, height - 1, width as int)
                    && #[trigger] has_content_at(pixels@, width, x, max_y as int, threshold);
            assert(has_content_at(pixels@, width, bottom, bounds.1 + bounds.3 - 1, threshold));
            assert forall|x: int, y: int|
                0 <= x < width && 0 <= y < height && #[trigger] has_content_at(
                    pixels@,
                    width,
                    x,
                    y,
                    threshold,
                ) implies bounds.0 <= x < bounds.0 + bounds.2 && bounds.1 <= y < bounds.1
                + bounds.3 by {
                assert(was_seen(x, y, width, height - 1, width as int));
            }
        }
        Some(bounds)
    }
}

/// What is known of the content once the rows above `rows` are seen:
/// whether there is any, and between which columns and rows it lies, with
/// content in each of these.
pub open spec fn content_seen(
    pixels: Seq<u8>,
    width: u32,
    threshold: u8,
    rows: int,
    any: bool,
    min_x: u32,
    min_y: u32,
    max_x: u32,
    max_y: u32,
) -> bool {
    content_seen_in_row(pixels, width, threshold, rows - 1, width as int, any, min_x, min_y, max_x, max_y)
}

/// Whether the pixel in column `x` and row `y` was seen once the rows above
/// `row` and the first `columns` pixels of that row are seen.
pub open spec fn was_seen(x: int, y: int, width: u32, row: int, columns: int) -> bool {
    0 <= x < width && 0 <= y && (y < row || (y == row && x < columns))
}

/// What is known of the content once the rows above `row` and the first
/// `columns` pixels of that row are seen.
pub open spec fn content_seen_in_row(
    pixels: Seq<u8>,
    width: u32,
    threshold: u8,
    row: int,
    columns: int,
    any: bool,
    min_x: u32,
    min_y: u32,
    max_x: u32,
    max_y: u32,
) -> bool {
    &&& forall|x: int, y: int|
        was_seen(x, y, width, row, columns) && #[trigger] has_content_at(
            pixels,
            width,
            x,
            y,
            threshold,
        ) ==> any && min_x <= x <= max_x && min_y <= y <= max_y
    &&& any ==> {
        &&& min_x <= max_x < width
        &&& min_y <= max_y <= row
        &&& exists|y: int|
            min_y <= y <= max_y && was_seen(min_x as int, y, width, row, columns)
                && #[trigger] has_content_at(pixels, width, min_x as int, y, threshold)
        &&& exists|y: int|
            min_y <= y <= max_y && was_seen(max_x as int, y, width, row, columns)
                && #[trigger] has_content_at(pixels, width, max_x as int, y, threshold)
        &&& exists|x: int|
            min_x <= x <= max_x && was_seen(x, min_y as int, width, row, columns)
                && #[trigger] has_content_at(pixels, width, x, min_y as int, threshold)
        &&& exists|x: int|
            min_x <= x <= max_x && was_seen(x, max_y as int, width, row, columns)
                && #[trigger] has_content_at(pixels, width, x, max_y as int, threshold)
    }
}

} // verus!
