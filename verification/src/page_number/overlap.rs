//! The reference position of a group of boxes: the point on which the page
//! numbers of the odd pages of a book, or of its even pages, are aligned.
//!
//! Every box is grown by a margin. The boxes that enough of the others
//! contain or overlap are kept, and all boxes where none is. Of the kept
//! boxes the smallest decide: the reference is the center of the region
//! that they have in common, or the mean of their centers where they have
//! none. Boxes of equal area are taken in their order.

use vstd::prelude::*;
use crate::numeric::{div_toward_zero, divide_toward_zero};
use crate::page_number::geometry::{margin_of, Point, Rectangle};
use crate::page_number::types::PageNumberRect;
use crate::sorting::{lemma_stable_order, order_by_key, stable_order};

verus! {

/// The margin by which each box is grown before boxes are compared, in
/// percent.
pub const BBOX_MARGIN_PERCENT: u32 = 3;

/// A box is kept when at least this part of all boxes supports it, in
/// percent.
pub const MIN_CONTAINMENT_PERCENT: u64 = 70;

/// This part of the kept boxes, the smallest of them, decides the reference
/// position, in percent.
pub const TOP_SMALL_BBOX_PERCENT: u64 = 30;

/// `percent` percent of `n`, rounded up.
pub open spec fn share_of(percent: int, n: int) -> int {
    (percent * n + 99) / 100
}

/// Every box grown by the margin.
pub open spec fn expand_all(boxes: Seq<Rectangle>) -> Seq<Rectangle> {
    Seq::new(boxes.len(), |i: int| boxes[i].spec_expand(BBOX_MARGIN_PERCENT))
}

/// Whether `other` supports `b`: it contains `b`, or the two overlap.
pub open spec fn supports(other: Rectangle, b: Rectangle) -> bool {
    other.spec_contains_rect(&b) || b.spec_overlaps(&other)
}

/// The number of boxes that support `b`.
pub open spec fn support_count(boxes: Seq<Rectangle>, b: Rectangle) -> nat
    decreases boxes.len(),
{
    if boxes.len() == 0 {
        0
    } else {
        support_count(boxes.drop_last(), b) + if supports(boxes.last(), b) {
            1nat
        } else {
            0nat
        }
    }
}

/// Whether enough of the boxes support the box at `i`.
pub open spec fn is_well_supported(boxes: Seq<Rectangle>, i: int) -> bool {
    support_count(boxes, boxes[i]) >= share_of(MIN_CONTAINMENT_PERCENT as int, boxes.len() as int)
}

/// Those of the first `n` boxes that enough of all boxes support, in their
/// order.
pub open spec fn well_supported(boxes: Seq<Rectangle>, n: nat) -> Seq<Rectangle>
    decreases n,
{
    if n == 0 {
        Seq::empty()
    } else if is_well_supported(boxes, n - 1) {
        well_supported(boxes, (n - 1) as nat).push(boxes[n - 1])
    } else {
        well_supported(boxes, (n - 1) as nat)
    }
}

/// The boxes that are kept: the well supported ones, or all boxes where none
/// is well supported.
pub open spec fn kept_boxes(boxes: Seq<Rectangle>) -> Seq<Rectangle> {
    let kept = well_supported(boxes, boxes.len());
    if kept.len() == 0 {
        boxes
    } else {
        kept
    }
}

/// The area of each box.
pub open spec fn areas(boxes: Seq<Rectangle>) -> Seq<u64> {
    Seq::new(boxes.len(), |i: int| boxes[i].spec_area())
}

/// The boxes by area, the smallest first, boxes of equal area in their
/// order.
pub open spec fn smallest_first(boxes: Seq<Rectangle>) -> Seq<Rectangle> {
    let order = stable_order(areas(boxes));
    Seq::new(order.len(), |p: int| boxes[order[p] as int])
}

/// The number of boxes that decide the reference position among `n` kept
/// ones: the given part of them, and one at least.
pub open spec fn selection_size(n: int) -> int {
    if share_of(TOP_SMALL_BBOX_PERCENT as int, n) < 1 {
        1
    } else {
        share_of(TOP_SMALL_BBOX_PERCENT as int, n)
    }
}

/// The boxes that decide the reference position: all boxes are grown by the
/// margin, the kept ones are taken by area, and the smallest are selected.
pub open spec fn selected_boxes(boxes: Seq<Rectangle>) -> Seq<Rectangle> {
    let kept = kept_boxes(expand_all(boxes));
    smallest_first(kept).take(selection_size(kept.len() as int))
}

/// The region common to all boxes, found by intersecting one box after
/// another; nothing where an intersection is empty, or for no boxes.
pub open spec fn common_region(boxes: Seq<Rectangle>) -> Option<Rectangle>
    decreases boxes.len(),
{
    if boxes.len() == 0 {
        None
    } else if boxes.len() == 1 {
        Some(boxes[0])
    } else {
        match common_region(boxes.drop_last()) {
            Some(region) => region.spec_intersection(&boxes.last()),
            None => None,
        }
    }
}

/// The sum of the horizontal coordinates of the boxes' centers.
pub open spec fn sum_center_x(boxes: Seq<Rectangle>) -> int
    decreases boxes.len(),
{
    if boxes.len() == 0 {
        0
    } else {
        sum_center_x(boxes.drop_last()) + boxes.last().spec_center().0
    }
}

/// The sum of the vertical coordinates of the boxes' centers.
pub open spec fn sum_center_y(boxes: Seq<Rectangle>) -> int
    decreases boxes.len(),
{
    if boxes.len() == 0 {
        0
    } else {
        sum_center_y(boxes.drop_last()) + boxes.last().spec_center().1
    }
}

/// The mean of the boxes' centers, each coordinate rounded toward zero; the
/// origin for no boxes.
pub open spec fn average_center(boxes: Seq<Rectangle>) -> Point {
    if boxes.len() == 0 {
        Point::origin()
    } else {
        Point {
            x: div_toward_zero(sum_center_x(boxes), boxes.len() as int) as i32,
            y: div_toward_zero(sum_center_y(boxes), boxes.len() as int) as i32,
        }
    }
}

/// The center of the region common to all boxes, or the mean of their
/// centers where they have no region in common.
pub open spec fn intersection_center(boxes: Seq<Rectangle>) -> Point {
    match common_region(boxes) {
        Some(region) => region.spec_center_point(),
        None => average_center(boxes),
    }
}

/// The reference position of a group of boxes: the origin for no boxes, the
/// center of a single box, and else the center that the selected boxes
/// decide.
pub open spec fn overlap_center(boxes: Seq<Rectangle>) -> Point {
    if boxes.len() == 0 {
        Point::origin()
    } else if boxes.len() == 1 {
        boxes[0].spec_center_point()
    } else {
        intersection_center(selected_boxes(boxes))
    }
}

/// The sums of centers lie between the smallest and the largest sum that
/// coordinates of 32 bits can have.
pub proof fn lemma_center_sums_bounded(boxes: Seq<Rectangle>)
    ensures
        boxes.len() * (i32::MIN as int) <= sum_center_x(boxes) <= boxes.len() * (i32::MAX as int),
        boxes.len() * (i32::MIN as int) <= sum_center_y(boxes) <= boxes.len() * (i32::MAX as int),
    decreases boxes.len(),
{
    if boxes.len() > 0 {
        lemma_center_sums_bounded(boxes.drop_last());
        let n = boxes.len() as int;
        assert((n - 1) * (i32::MIN as int) + (i32::MIN as int) == n * (i32::MIN as int))
            by (nonlinear_arith);
        assert((n - 1) * (i32::MAX as int) + (i32::MAX as int) == n * (i32::MAX as int))
            by (nonlinear_arith);
    }
}

/// A mean of numbers of 32 bits has 32 bits.
pub proof fn lemma_mean_bounded(sum: int, n: int)
    requires
        n > 0,
        n * (i32::MIN as int) <= sum <= n * (i32::MAX as int),
    ensures
        i32::MIN <= div_toward_zero(sum, n) <= i32::MAX,
{
    if sum >= 0 {
        assert(0 <= sum / n <= i32::MAX) by (nonlinear_arith)
            requires
                n > 0,
                0 <= sum <= n * (i32::MAX as int),
        ;
    } else {
        assert(0 <= (-sum) / n <= -(i32::MIN as int)) by (nonlinear_arith)
            requires
                n > 0,
                0 <= -sum <= n * (-(i32::MIN as int)),
        ;
    }
}

/// The mean of the boxes' centers; the origin for no boxes.
pub fn calc_average_center(bboxes: &[Rectangle]) -> (p: Point)
    ensures
        p == average_center(bboxes@),
{
    let n: usize = bboxes.len();
    if n == 0 {
        return Point::default();
    }
    let mut sum_x: i128 = 0;
    let mut sum_y: i128 = 0;
    let mut i: usize = 0;
    assert(bboxes@.take(0) =~= Seq::<Rectangle>::empty());
    while i < n
        invariant
            i <= n == bboxes.len(),
            sum_x == sum_center_x(bboxes@.take(i as int)),
            sum_y == sum_center_y(bboxes@.take(i as int)),
        decreases n - i,
    {
        let c = bboxes[i].center();
        proof {
            let longer = bboxes@.take(i as int + 1);
            assert(longer.drop_last() =~= bboxes@.take(i as int));
            assert(longer.last() == bboxes@[i as int]);
            lemma_center_sums_bounded(bboxes@.take(i as int));
            lemma_center_sums_bounded(longer);
            assert(i * (i32::MIN as int) >= usize::MAX * (i32::MIN as int)) by (nonlinear_arith)
                requires
                    0 <= i <= usize::MAX,
            ;
            assert((i + 1) * (i32::MAX as int) <= usize::MAX * (i32::MAX as int))
                by (nonlinear_arith)
                requires
                    0 <= i + 1 <= usize::MAX,
            ;
        }
        sum_x = sum_x + c.0 as i128;
        sum_y = sum_y + c.1 as i128;
        i += 1;
    }
    proof {
        assert(bboxes@.take(n as int) =~= bboxes@);
        lemma_center_sums_bounded(bboxes@);
        lemma_mean_bounded(sum_x as int, n as int);
        lemma_mean_bounded(sum_y as int, n as int);
    }
    let mean_x: i128 = divide_toward_zero(sum_x, n as i128);
    let mean_y: i128 = divide_toward_zero(sum_y, n as i128);
    Point::new(mean_x as i32, mean_y as i32)
}

/// The center of the region common to all boxes, or the mean of their
/// centers where they have no region in common; the origin for no boxes.
pub fn calc_intersection_center(bboxes: &[Rectangle]) -> (p: Point)
    ensures
        p == intersection_center(bboxes@),
{
    let n: usize = bboxes.len();
    if n == 0 {
        return Point::default();
    }
    let mut region = bboxes[0];
    let mut i: usize = 1;
    assert(bboxes@.take(1) =~= seq![bboxes@[0]]);
    while i < n
        invariant
            1 <= i <= n == bboxes.len(),
            common_region(bboxes@.take(i as int)) == Some(region),
        decreases n - i,
    {
        proof {
            let longer = bboxes@.take(i as int + 1);
            assert(longer.drop_last() =~= bboxes@.take(i as int));
            assert(longer.last() == bboxes@[i as int]);
        }
        match region.intersection(&bboxes[i]) {
            Some(shared) => {
                region = shared;
            },
            None => {
                proof {
                    lemma_common_region_stays_empty(bboxes@, i as int + 1);
                }
                return calc_average_center(bboxes);
            },
        }
        i += 1;
    }
    assert(bboxes@.take(n as int) =~= bboxes@);
    region.center_point()
}

/// Once the boxes up to some point have no region in common, no longer list
/// has one.
pub proof fn lemma_common_region_stays_empty(boxes: Seq<Rectangle>, k: int)
    requires
        1 <= k <= boxes.len(),
        common_region(boxes.take(k)) is None,
    ensures
        common_region(boxes) is None,
    decreases boxes.len() - k,
{
    if k == boxes.len() {
        assert(boxes.take(k) =~= boxes);
    } else {
        let longer = boxes.take(k + 1);
        assert(longer.drop_last() =~= boxes.take(k));
        lemma_common_region_stays_empty(boxes, k + 1);
    }
}

/// `percent` percent of `n`, rounded up.
pub fn share(percent: u64, n: usize) -> (s: usize)
    requires
        percent <= 100,
    ensures
        s == share_of(percent as int, n as int),
        s <= n,
{
    assert(0 <= percent as int * n as int <= 100 * n as int) by (nonlinear_arith)
        requires
            0 <= percent <= 100,
            0 <= n,
    ;
    let scaled: u128 = percent as u128 * n as u128 + 99;
    (scaled / 100) as usize
}

/// Every box grown by the margin.
pub fn expand_boxes(bboxes: &[Rectangle]) -> (expanded: Vec<Rectangle>)
    ensures
        expanded@ == expand_all(bboxes@),
{
    let n: usize = bboxes.len();
    let mut expanded: Vec<Rectangle> = Vec::new();
    let mut i: usize = 0;
    while i < n
        invariant
            i <= n == bboxes.len(),
            expanded@ == expand_all(bboxes@).take(i as int),
        decreases n - i,
    {
        expanded.push(bboxes[i].expand(BBOX_MARGIN_PERCENT));
        assert(expanded@ =~= expand_all(bboxes@).take(i as int + 1));
        i += 1;
    }
    assert(expand_all(bboxes@).take(n as int) =~= expand_all(bboxes@));
    expanded
}

/// The number of boxes that support `b`: that contain it or overlap it.
pub fn count_support(bboxes: &[Rectangle], b: &Rectangle) -> (count: usize)
    ensures
        count == support_count(bboxes@, *b),
        count <= bboxes.len(),
{
    let n: usize = bboxes.len();
    let mut count: usize = 0;
    let mut i: usize = 0;
    assert(bboxes@.take(0) =~= Seq::<Rectangle>::empty());
    while i < n
        invariant
            i <= n == bboxes.len(),
            count <= i,
            count == support_count(bboxes@.take(i as int), *b),
        decreases n - i,
    {
        proof {
            let longer = bboxes@.take(i as int + 1);
            assert(longer.drop_last() =~= bboxes@.take(i as int));
            assert(longer.last() == bboxes@[i as int]);
        }
        if bboxes[i].contains_rect(b) || b.overlaps(&bboxes[i]) {
            count += 1;
        }
        i += 1;
    }
    assert(bboxes@.take(n as int) =~= bboxes@);
    count
}

/// The boxes that enough of the boxes support, or all boxes where there is
/// no such box.
pub fn keep_supported(bboxes: &[Rectangle]) -> (kept: Vec<Rectangle>)
    ensures
        kept@ == kept_boxes(bboxes@),
{
    let n: usize = bboxes.len();
    let needed: usize = share(MIN_CONTAINMENT_PERCENT, n);
    let mut kept: Vec<Rectangle> = Vec::new();
    let mut i: usize = 0;
    while i < n
        invariant
            i <= n == bboxes.len(),
            needed == share_of(MIN_CONTAINMENT_PERCENT as int, n as int),
            kept@ == well_supported(bboxes@, i as nat),
        decreases n - i,
    {
        if count_support(bboxes, &bboxes[i]) >= needed {
            kept.push(bboxes[i]);
        }
        i += 1;
    }
    if kept.len() == 0 {
        let mut all: Vec<Rectangle> = Vec::new();
        let mut k: usize = 0;
        while k < n
            invariant
                k <= n == bboxes.len(),
                all@ == bboxes@.take(k as int),
            decreases n - k,
        {
            all.push(bboxes[k]);
            assert(all@ =~= bboxes@.take(k as int + 1));
            k += 1;
        }
        assert(bboxes@.take(n as int) =~= bboxes@);
        all
    } else {
        kept
    }
}

/// The smallest of the boxes by area, those that decide the reference
/// position; of boxes with equal area the earlier comes first.
pub fn smallest_boxes(bboxes: &[Rectangle]) -> (selected: Vec<Rectangle>)
    requires
        bboxes.len() > 0,
    ensures
        selected@ == smallest_first(bboxes@).take(selection_size(bboxes.len() as int)),
        0 < selected.len() <= bboxes.len(),
{
    let n: usize = bboxes.len();
    let mut keys: Vec<u64> = Vec::new();
    let mut i: usize = 0;
    while i < n
        invariant
            i <= n == bboxes.len(),
            keys@ == areas(bboxes@).take(i as int),
        decreases n - i,
    {
        keys.push(bboxes[i].area());
        assert(keys@ =~= areas(bboxes@).take(i as int + 1));
        i += 1;
    }
    assert(areas(bboxes@).take(n as int) =~= areas(bboxes@));
    let order = order_by_key(&keys);
    let part: usize = share(TOP_SMALL_BBOX_PERCENT, n);
    let size: usize = if part < 1 { 1 } else { part };
    let mut selected: Vec<Rectangle> = Vec::new();
    let mut p: usize = 0;
    while p < size
        invariant
            p <= size <= n == bboxes.len(),
            order@ == stable_order(areas(bboxes@)),
            order.len() == n,
            forall|q: int| 0 <= q < order.len() ==> 0 <= #[trigger] order@[q] < n,
            selected@ == smallest_first(bboxes@).take(p as int),
        decreases size - p,
    {
        selected.push(bboxes[order[p]]);
        assert(selected@ =~= smallest_first(bboxes@).take(p as int + 1));
        p += 1;
    }
    selected
}

/// The reference position of a group of boxes: the origin for no boxes and
/// the center of a single box. For more boxes, every box is grown by the
/// margin; the boxes that enough others contain or overlap are kept (all,
/// where none is); of the kept boxes the smallest decide; and the reference
/// is the center of the region that these have in common, or the mean of
/// their centers where they have none.
pub fn calc_overlap_center(bboxes: &[Rectangle]) -> (p: Point)
    ensures
        p == overlap_center(bboxes@),
        bboxes.len() == 0 ==> p == Point::origin(),
        bboxes.len() == 1 ==> p == bboxes[0].spec_center_point(),
{
    if bboxes.len() == 0 {
        return Point::default();
    }
    if bboxes.len() == 1 {
        return bboxes[0].center_point();
    }
    let expanded = expand_boxes(bboxes);
    let kept = keep_supported(expanded.as_slice());
    proof {
        lemma_kept_boxes_nonempty(expanded@);
    }
    let selected = smallest_boxes(kept.as_slice());
    calc_intersection_center(selected.as_slice())
}

/// Those of the first `n` boxes that are well supported are no more than
/// `n`.
pub proof fn lemma_well_supported_len(boxes: Seq<Rectangle>, n: nat)
    ensures
        well_supported(boxes, n).len() <= n,
    decreases n,
{
    if n > 0 {
        lemma_well_supported_len(boxes, (n - 1) as nat);
    }
}

/// Of one box or more, one at least is kept, and no more than there are.
pub proof fn lemma_kept_boxes_nonempty(boxes: Seq<Rectangle>)
    requires
        boxes.len() > 0,
    ensures
        0 < kept_boxes(boxes).len() <= boxes.len(),
{
    lemma_well_supported_len(boxes, boxes.len());
}

/// The boxes of the pages with the given parity, in the order of the pages.
pub open spec fn group_boxes(positions: Seq<(usize, PageNumberRect)>, is_odd: bool) -> Seq<
    Rectangle,
>
    decreases positions.len(),
{
    if positions.len() == 0 {
        Seq::empty()
    } else if (positions.last().0 % 2 == 1) == is_odd {
        group_boxes(positions.drop_last(), is_odd).push(positions.last().1.spec_to_rectangle())
    } else {
        group_boxes(positions.drop_last(), is_odd)
    }
}

/// The reference position of the odd pages, or of the even pages, among the
/// given pages with their boxes.
pub fn calc_group_reference_position(positions: &[(usize, PageNumberRect)], is_odd: bool) -> (p:
    Point)
    ensures
        p == overlap_center(group_boxes(positions@, is_odd)),
{
    let n: usize = positions.len();
    let mut group: Vec<Rectangle> = Vec::new();
    let mut i: usize = 0;
    assert(positions@.take(0) =~= Seq::<(usize, PageNumberRect)>::empty());
    while i < n
        invariant
            i <= n == positions.len(),
            group@ == group_boxes(positions@.take(i as int), is_odd),
        decreases n - i,
    {
        proof {
            let longer = positions@.take(i as int + 1);
            assert(longer.drop_last() =~= positions@.take(i as int));
            assert(longer.last() == positions@[i as int]);
        }
        let page: usize = positions[i].0;
        if (page % 2 == 1) == is_odd {
            group.push(positions[i].1.to_rectangle());
        }
        i += 1;
    }
    assert(positions@.take(n as int) =~= positions@);
    calc_overlap_center(group.as_slice())
}

/// Whether a list of pages with their boxes holds a page of the given
/// parity.
pub fn has_parity(positions: &[(usize, PageNumberRect)], is_odd: bool) -> (found: bool)
    ensures
        found == (group_boxes(positions@, is_odd).len() > 0),
{
    let n: usize = positions.len();
    let mut i: usize = 0;
    assert(positions@.take(0) =~= Seq::<(usize, PageNumberRect)>::empty());
    while i < n
        invariant
            i <= n == positions.len(),
            group_boxes(positions@.take(i as int), is_odd).len() == 0,
        decreases n - i,
    {
        proof {
            let longer = positions@.take(i as int + 1);
            assert(longer.drop_last() =~= positions@.take(i as int));
            assert(longer.last() == positions@[i as int]);
        }
        let page: usize = positions[i].0;
        if (page % 2 == 1) == is_odd {
            proof {
                lemma_group_boxes_grow(positions@, is_odd, i as int + 1);
            }
            return true;
        }
        i += 1;
    }
    assert(positions@.take(n as int) =~= positions@);
    false
}

/// A group never shrinks as pages are added.
pub proof fn lemma_group_boxes_grow(positions: Seq<(usize, PageNumberRect)>, is_odd: bool, k: int)
    requires
        0 <= k <= positions.len(),
    ensures
        group_boxes(positions.take(k), is_odd).len() <= group_boxes(positions, is_odd).len(),
    decreases positions.len() - k,
{
    if k == positions.len() {
        assert(positions.take(k) =~= positions);
    } else {
        let longer = positions.take(k + 1);
        assert(longer.drop_last() =~= positions.take(k));
        lemma_group_boxes_grow(positions, is_odd, k + 1);
    }
}

/// The middle of a box from left to right, before it is limited to 32
/// bits.
pub open spec fn middle_x(b: Rectangle) -> int {
    b.x as int + (b.width as int) / 2
}

/// The middle of a box from top to bottom, before it is limited to 32 bits.
pub open spec fn middle_y(b: Rectangle) -> int {
    b.y as int + (b.height as int) / 2
}

/// Whether every box of `selected` is one of `source`.
pub open spec fn drawn_from(selected: Seq<Rectangle>, source: Seq<Rectangle>) -> bool {
    forall|p: int| 0 <= p < selected.len() ==> source.contains(#[trigger] selected[p])
}

/// Whether every box lies between the given bounds.
pub open spec fn all_within(
    boxes: Seq<Rectangle>,
    left: int,
    top: int,
    right: int,
    bottom: int,
) -> bool {
    forall|i: int|
        0 <= i < boxes.len() ==> {
            &&& left <= (#[trigger] boxes[i]).x
            &&& boxes[i].right() <= right
            &&& top <= boxes[i].y
            &&& boxes[i].bottom() <= bottom
        }
}

/// Whether the middle of every box lies between the given bounds.
pub open spec fn middles_within(
    boxes: Seq<Rectangle>,
    left: int,
    top: int,
    right: int,
    bottom: int,
) -> bool {
    forall|i: int|
        0 <= i < boxes.len() ==> {
            &&& left <= middle_x(#[trigger] boxes[i]) <= right
            &&& top <= middle_y(boxes[i]) <= bottom
        }
}

/// Whether growing the box by the margin stays within 32 bits.
pub open spec fn grows_exactly(b: Rectangle) -> bool {
    &&& b.x - margin_of(b.width, BBOX_MARGIN_PERCENT) >= i32::MIN
    &&& b.y - margin_of(b.height, BBOX_MARGIN_PERCENT) >= i32::MIN
    &&& b.width + 2 * margin_of(b.width, BBOX_MARGIN_PERCENT) <= u32::MAX
    &&& b.height + 2 * margin_of(b.height, BBOX_MARGIN_PERCENT) <= u32::MAX
}

/// The middle of a grown box lies within the box as it was.
pub proof fn lemma_grown_middle(b: Rectangle)
    ensures
        b.x <= middle_x(b.spec_expand(BBOX_MARGIN_PERCENT)) <= b.right(),
        b.y <= middle_y(b.spec_expand(BBOX_MARGIN_PERCENT)) <= b.bottom(),
        grows_exactly(b) ==> middle_x(b.spec_expand(BBOX_MARGIN_PERCENT)) == middle_x(b)
            && middle_y(b.spec_expand(BBOX_MARGIN_PERCENT)) == middle_y(b),
{
}

/// Those of the first `n` boxes that are well supported are boxes of the
/// list.
pub proof fn lemma_well_supported_drawn(boxes: Seq<Rectangle>, n: nat)
    requires
        n <= boxes.len(),
    ensures
        drawn_from(well_supported(boxes, n), boxes),
    decreases n,
{
    if n > 0 {
        lemma_well_supported_drawn(boxes, (n - 1) as nat);
        let before = well_supported(boxes, (n - 1) as nat);
        let now = well_supported(boxes, n);
        assert forall|p: int| 0 <= p < now.len() implies boxes.contains(#[trigger] now[p]) by {
            if p < before.len() {
                assert(now[p] == before[p]);
            } else {
                assert(now[p] == boxes[n - 1]);
            }
        }
    }
}

/// The boxes that are kept are boxes of the list.
pub proof fn lemma_kept_drawn(boxes: Seq<Rectangle>)
    ensures
        drawn_from(kept_boxes(boxes), boxes),
{
    let kept = kept_boxes(boxes);
    lemma_well_supported_drawn(boxes, boxes.len());
    if well_supported(boxes, boxes.len()).len() == 0 {
        assert forall|p: int| 0 <= p < kept.len() implies boxes.contains(#[trigger] kept[p]) by {
            assert(kept[p] == boxes[p]);
        }
    }
}

/// The smallest boxes of a list are boxes of the list.
pub proof fn lemma_smallest_drawn(boxes: Seq<Rectangle>, size: int)
    requires
        boxes.len() <= usize::MAX,
        0 <= size <= boxes.len(),
    ensures
        drawn_from(smallest_first(boxes).take(size), boxes),
        smallest_first(boxes).take(size).len() == size,
{
    lemma_stable_order(areas(boxes));
    let order = stable_order(areas(boxes));
    let taken = smallest_first(boxes).take(size);
    assert forall|p: int| 0 <= p < taken.len() implies boxes.contains(#[trigger] taken[p]) by {
        let at = order[p] as int;
        assert(0 <= at < boxes.len());
        assert(taken[p] == boxes[at]);
    }
}

/// Boxes drawn from boxes that are drawn from a list are drawn from the
/// list.
pub proof fn lemma_drawn_from_chain(a: Seq<Rectangle>, b: Seq<Rectangle>, c: Seq<Rectangle>)
    requires
        drawn_from(a, b),
        drawn_from(b, c),
    ensures
        drawn_from(a, c),
{
    assert forall|p: int| 0 <= p < a.len() implies c.contains(#[trigger] a[p]) by {
        assert(b.contains(a[p]));
        let at = choose|i: int| 0 <= i < b.len() && b[i] == a[p];
        assert(c.contains(b[at]));
    }
}

/// The boxes that decide the reference position are grown boxes of the
/// list.
pub proof fn lemma_selected_drawn(boxes: Seq<Rectangle>)
    requires
        0 < boxes.len() <= usize::MAX,
    ensures
        drawn_from(selected_boxes(boxes), expand_all(boxes)),
        0 < selected_boxes(boxes).len() <= boxes.len(),
{
    let grown = expand_all(boxes);
    let kept = kept_boxes(grown);
    lemma_kept_drawn(grown);
    lemma_kept_boxes_nonempty(grown);
    let size = selection_size(kept.len() as int);
    assert(1 <= size <= kept.len());
    lemma_smallest_drawn(kept, size);
    lemma_drawn_from_chain(selected_boxes(boxes), kept, grown);
}

/// The region common to boxes has its left edge from one of them and its
/// right edge from one of them, and lies within each of these two; so its
/// middle lies between the middles of two of the boxes. The same holds from
/// top to bottom.
pub proof fn lemma_common_region_middle(boxes: Seq<Rectangle>) -> (w: (int, int, int, int))
    requires
        common_region(boxes) is Some,
    ensures
        0 <= w.0 < boxes.len() && 0 <= w.1 < boxes.len(),
        0 <= w.2 < boxes.len() && 0 <= w.3 < boxes.len(),
        common_region(boxes)->0.x >= boxes[w.0].x && common_region(boxes)->0.right()
            == boxes[w.0].right(),
        common_region(boxes)->0.x == boxes[w.1].x && common_region(boxes)->0.right()
            <= boxes[w.1].right(),
        common_region(boxes)->0.y >= boxes[w.2].y && common_region(boxes)->0.bottom()
            == boxes[w.2].bottom(),
        common_region(boxes)->0.y == boxes[w.3].y && common_region(boxes)->0.bottom()
            <= boxes[w.3].bottom(),
        middle_x(boxes[w.0]) <= middle_x(common_region(boxes)->0) <= middle_x(boxes[w.1]),
        middle_y(boxes[w.2]) <= middle_y(common_region(boxes)->0) <= middle_y(boxes[w.3]),
    decreases boxes.len(),
{
    if boxes.len() == 1 {
        (0, 0, 0, 0)
    } else {
        let shorter = boxes.drop_last();
        let last = boxes.len() - 1;
        let before = lemma_common_region_middle(shorter);
        let region = common_region(shorter)->0;
        let next = boxes[last];
        let shared = region.spec_intersection(&next)->0;
        assert(common_region(boxes) == Some(shared));
        assert(shorter[before.0] == boxes[before.0]);
        assert(shorter[before.1] == boxes[before.1]);
        assert(shorter[before.2] == boxes[before.2]);
        assert(shorter[before.3] == boxes[before.3]);
        let right_from = if shared.right() == next.right() { last } else { before.0 };
        let left_from = if shared.x == next.x { last } else { before.1 };
        let bottom_from = if shared.bottom() == next.bottom() { last } else { before.2 };
        let top_from = if shared.y == next.y { last } else { before.3 };
        (right_from, left_from, bottom_from, top_from)
    }
}

/// The sums of the middles of boxes whose middles lie between bounds lie
/// between the bounds times the number of boxes.
pub proof fn lemma_center_sums_within(
    boxes: Seq<Rectangle>,
    left: int,
    top: int,
    right: int,
    bottom: int,
)
    requires
        middles_within(boxes, left, top, right, bottom),
        left <= i32::MAX,
        top <= i32::MAX,
    ensures
        boxes.len() * left <= sum_center_x(boxes) <= boxes.len() * right,
        boxes.len() * top <= sum_center_y(boxes) <= boxes.len() * bottom,
    decreases boxes.len(),
{
    if boxes.len() > 0 {
        let shorter = boxes.drop_last();
        assert forall|i: int| 0 <= i < shorter.len() implies {
            &&& left <= middle_x(#[trigger] shorter[i]) <= right
            &&& top <= middle_y(shorter[i]) <= bottom
        } by {
            assert(shorter[i] == boxes[i]);
        }
        lemma_center_sums_within(shorter, left, top, right, bottom);
        let n = boxes.len() as int;
        let b = boxes[n - 1];
        assert(left <= middle_x(b) <= right && top <= middle_y(b) <= bottom);
        assert(left <= b.spec_center().0 <= right && top <= b.spec_center().1 <= bottom);
        assert((n - 1) * left + left == n * left) by (nonlinear_arith);
        assert((n - 1) * right + right == n * right) by (nonlinear_arith);
        assert((n - 1) * top + top == n * top) by (nonlinear_arith);
        assert((n - 1) * bottom + bottom == n * bottom) by (nonlinear_arith);
        assert(shorter.len() == n - 1);
        assert((n - 1) * left <= sum_center_x(shorter) <= (n - 1) * right);
        assert((n - 1) * top <= sum_center_y(shorter) <= (n - 1) * bottom);
        assert(sum_center_x(boxes) == sum_center_x(shorter) + b.spec_center().0);
        assert(sum_center_y(boxes) == sum_center_y(shorter) + b.spec_center().1);
    } else {
        assert(0 * left == 0 && 0 * right == 0 && 0 * top == 0 && 0 * bottom == 0)
            by (nonlinear_arith);
    }
}

/// A mean, rounded toward zero, of numbers between two bounds lies between
/// the bounds.
pub proof fn lemma_mean_within(sum: int, n: int, low: int, high: int)
    requires
        n > 0,
        n * low <= sum <= n * high,
    ensures
        low <= div_toward_zero(sum, n) <= high,
{
    if sum >= 0 {
        assert(low <= sum / n <= high) by (nonlinear_arith)
            requires
                n > 0,
                n * low <= sum <= n * high,
                sum >= 0,
        ;
    } else {
        assert(n * (-high) == -(n * high) && n * (-low) == -(n * low)) by (nonlinear_arith);
        assert(-high <= (-sum) / n) by (nonlinear_arith)
            requires
                n > 0,
                n * (-high) <= -sum,
                -sum > 0,
        ;
        assert((-sum) / n <= -low) by (nonlinear_arith)
            requires
                n > 0,
                -sum <= n * (-low),
                -sum > 0,
        ;
    }
}

/// The reference position that boxes decide lies between any bounds
/// between which their middles lie.
pub proof fn lemma_intersection_center_within(
    boxes: Seq<Rectangle>,
    left: int,
    top: int,
    right: int,
    bottom: int,
)
    requires
        boxes.len() > 0,
        middles_within(boxes, left, top, right, bottom),
        left <= i32::MAX,
        top <= i32::MAX,
    ensures
        left <= intersection_center(boxes).x <= right,
        top <= intersection_center(boxes).y <= bottom,
{
    match common_region(boxes) {
        Some(region) => {
            let w = lemma_common_region_middle(boxes);
            assert(left <= middle_x(boxes[w.0]));
            assert(middle_x(boxes[w.1]) <= right);
            assert(top <= middle_y(boxes[w.2]));
            assert(middle_y(boxes[w.3]) <= bottom);
        },
        None => {
            lemma_center_sums_within(boxes, left, top, right, bottom);
            lemma_center_sums_bounded(boxes);
            lemma_mean_bounded(sum_center_x(boxes), boxes.len() as int);
            lemma_mean_bounded(sum_center_y(boxes), boxes.len() as int);
            lemma_mean_within(sum_center_x(boxes), boxes.len() as int, left, right);
            lemma_mean_within(sum_center_y(boxes), boxes.len() as int, top, bottom);
        },
    }
}

/// The reference position of a group of boxes never lies outside the range
/// of the boxes: whatever bounds hold all boxes hold the reference
/// position.
pub proof fn law_overlap_center_within_boxes(
    boxes: Seq<Rectangle>,
    left: int,
    top: int,
    right: int,
    bottom: int,
)
    requires
        0 < boxes.len() <= usize::MAX,
        all_within(boxes, left, top, right, bottom),
    ensures
        left <= overlap_center(boxes).x <= right,
        top <= overlap_center(boxes).y <= bottom,
{
    assert(left <= boxes[0].x && top <= boxes[0].y);
    if boxes.len() == 1 {
    } else {
        let selected = selected_boxes(boxes);
        let grown = expand_all(boxes);
        lemma_selected_drawn(boxes);
        assert forall|p: int| 0 <= p < selected.len() implies {
            &&& left <= middle_x(#[trigger] selected[p]) <= right
            &&& top <= middle_y(selected[p]) <= bottom
        } by {
            assert(grown.contains(selected[p]));
            let i = choose|i: int| 0 <= i < grown.len() && grown[i] == selected[p];
            assert(grown[i] == boxes[i].spec_expand(BBOX_MARGIN_PERCENT));
            lemma_grown_middle(boxes[i]);
            assert(left <= boxes[i].x && boxes[i].right() <= right);
        }
        lemma_intersection_center_within(selected, left, top, right, bottom);
    }
}

/// Whether every box of the list is `b`.
pub open spec fn all_equal(boxes: Seq<Rectangle>, b: Rectangle) -> bool {
    forall|i: int| 0 <= i < boxes.len() ==> #[trigger] boxes[i] == b
}

/// In a list of equal boxes every box supports every box.
pub proof fn lemma_support_count_of_equal(boxes: Seq<Rectangle>, b: Rectangle)
    requires
        all_equal(boxes, b),
    ensures
        support_count(boxes, b) == boxes.len(),
    decreases boxes.len(),
{
    if boxes.len() > 0 {
        let shorter = boxes.drop_last();
        assert forall|i: int| 0 <= i < shorter.len() implies #[trigger] shorter[i] == b by {
            assert(shorter[i] == boxes[i]);
        }
        lemma_support_count_of_equal(shorter, b);
        assert(boxes[boxes.len() - 1] == b);
        assert(supports(b, b));
    }
}

/// In a list of equal boxes every box is well supported.
pub proof fn lemma_well_supported_of_equal(boxes: Seq<Rectangle>, b: Rectangle, n: nat)
    requires
        all_equal(boxes, b),
        n <= boxes.len(),
    ensures
        well_supported(boxes, n) == boxes.take(n as int),
    decreases n,
{
    if n == 0 {
        assert(boxes.take(0) =~= Seq::<Rectangle>::empty());
    } else {
        lemma_well_supported_of_equal(boxes, b, (n - 1) as nat);
        lemma_support_count_of_equal(boxes, b);
        assert(boxes[n - 1] == b);
        assert(is_well_supported(boxes, n - 1));
        assert(boxes.take(n - 1).push(boxes[n - 1]) =~= boxes.take(n as int));
    }
}

/// The sums of the centers of equal boxes are the center times their
/// number.
pub proof fn lemma_center_sums_of_equal(boxes: Seq<Rectangle>, b: Rectangle)
    requires
        all_equal(boxes, b),
    ensures
        sum_center_x(boxes) == boxes.len() * b.spec_center().0,
        sum_center_y(boxes) == boxes.len() * b.spec_center().1,
    decreases boxes.len(),
{
    let cx = b.spec_center().0 as int;
    let cy = b.spec_center().1 as int;
    if boxes.len() > 0 {
        let shorter = boxes.drop_last();
        assert forall|i: int| 0 <= i < shorter.len() implies #[trigger] shorter[i] == b by {
            assert(shorter[i] == boxes[i]);
        }
        lemma_center_sums_of_equal(shorter, b);
        let n = boxes.len() as int;
        assert(boxes[n - 1] == b);
        assert((n - 1) * cx + cx == n * cx) by (nonlinear_arith);
        assert((n - 1) * cy + cy == n * cy) by (nonlinear_arith);
    } else {
        assert(0 * cx == 0 && 0 * cy == 0) by (nonlinear_arith);
    }
}

/// The region common to equal boxes, where there is one, is the box.
pub proof fn lemma_common_region_of_equal(boxes: Seq<Rectangle>, b: Rectangle)
    requires
        all_equal(boxes, b),
    ensures
        common_region(boxes) is Some ==> common_region(boxes) == Some(b),
    decreases boxes.len(),
{
    if boxes.len() == 1 {
        assert(boxes[0] == b);
    } else if boxes.len() > 1 {
        let shorter = boxes.drop_last();
        assert forall|i: int| 0 <= i < shorter.len() implies #[trigger] shorter[i] == b by {
            assert(shorter[i] == boxes[i]);
        }
        lemma_common_region_of_equal(shorter, b);
        assert(boxes[boxes.len() - 1] == b);
    }
}

/// Equal boxes decide on their common center.
pub proof fn lemma_intersection_center_of_equal(boxes: Seq<Rectangle>, b: Rectangle)
    requires
        boxes.len() > 0,
        all_equal(boxes, b),
    ensures
        intersection_center(boxes) == b.spec_center_point(),
{
    lemma_common_region_of_equal(boxes, b);
    if common_region(boxes) is None {
        lemma_center_sums_of_equal(boxes, b);
        let n = boxes.len() as int;
        let cx = b.spec_center().0 as int;
        let cy = b.spec_center().1 as int;
        assert(div_toward_zero(n * cx, n) == cx) by (nonlinear_arith)
            requires
                n > 0,
        ;
        assert(div_toward_zero(n * cy, n) == cy) by (nonlinear_arith)
            requires
                n > 0,
        ;
    }
}

/// The reference position of a group of equal boxes is the center of the
/// box, where growing the box by the margin stays within 32 bits.
pub proof fn law_overlap_center_of_equal_boxes(boxes: Seq<Rectangle>, b: Rectangle)
    requires
        0 < boxes.len() <= usize::MAX,
        all_equal(boxes, b),
        grows_exactly(b),
    ensures
        overlap_center(boxes) == b.spec_center_point(),
{
    assert(boxes[0] == b);
    if boxes.len() > 1 {
        let grown = expand_all(boxes);
        let e = b.spec_expand(BBOX_MARGIN_PERCENT);
        assert forall|i: int| 0 <= i < grown.len() implies #[trigger] grown[i] == e by {
            assert(boxes[i] == b);
        }
        lemma_well_supported_of_equal(grown, e, grown.len());
        assert(grown.take(grown.len() as int) =~= grown);
        let kept = kept_boxes(grown);
        assert(kept == grown);
        let size = selection_size(kept.len() as int);
        assert(1 <= size <= kept.len());
        lemma_smallest_drawn(kept, size);
        let selected = selected_boxes(boxes);
        assert forall|p: int| 0 <= p < selected.len() implies #[trigger] selected[p] == e by {
            assert(kept.contains(selected[p]));
        }
        lemma_intersection_center_of_equal(selected, e);
        lemma_grown_middle(b);
    }
}

} // verus!
