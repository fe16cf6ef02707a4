//! The shift between physical and printed page numbers: which detections
//! agree with a shift, how a shift scores, and which shift is the best.

use vstd::prelude::*;
use crate::page_number::types::DetectedPageNumber;

verus! {

/// The shifts that are tried run from minus this number up to, but not
/// including, this number.
pub const MAX_SHIFT_TEST: i32 = 300;

/// Whether the number detected on a page is the one that a shift predicts:
/// the physical page number minus the shift, which must be 1 at least.
pub open spec fn agrees(d: DetectedPageNumber, shift: int) -> bool {
    d.number matches Some(n) && n >= 1 && n as int == d.page_index + 1 - shift
}

/// The sum of the confidences of the detections that agree with a shift.
pub open spec fn shift_score(detections: Seq<DetectedPageNumber>, shift: int) -> int
    decreases detections.len(),
{
    if detections.len() == 0 {
        0
    } else {
        shift_score(detections.drop_last(), shift) + if agrees(detections.last(), shift) {
            detections.last().confidence as int
        } else {
            0
        }
    }
}

/// The number of detections that agree with a shift.
pub open spec fn shift_count(detections: Seq<DetectedPageNumber>, shift: int) -> int
    decreases detections.len(),
{
    if detections.len() == 0 {
        0
    } else {
        shift_count(detections.drop_last(), shift) + if agrees(detections.last(), shift) {
            1int
        } else {
            0int
        }
    }
}

/// The absolute value of a shift.
pub open spec fn magnitude(shift: int) -> int {
    if shift < 0 {
        -shift
    } else {
        shift
    }
}

/// Whether shift `s` explains the detections better than shift `t`: its
/// score is higher, or the scores are equal and `s` is the smaller shift in
/// absolute value.
pub open spec fn shift_beats(detections: Seq<DetectedPageNumber>, s: int, t: int) -> bool {
    shift_score(detections, s) > shift_score(detections, t) || (shift_score(detections, s)
        == shift_score(detections, t) && magnitude(s) < magnitude(t))
}

/// Whether `s` is the best of the shifts from -300 up to, but not
/// including, `limit`: none of them beats it, and it beats every smaller
/// one.
pub open spec fn is_best_shift(detections: Seq<DetectedPageNumber>, s: int, limit: int) -> bool {
    &&& -MAX_SHIFT_TEST <= s < limit <= MAX_SHIFT_TEST
    &&& forall|t: int| -MAX_SHIFT_TEST <= t < limit ==> !#[trigger] shift_beats(detections, t, s)
    &&& forall|t: int| -MAX_SHIFT_TEST <= t < s ==> #[trigger] shift_beats(detections, s, t)
}

/// The best shift of a book: of the shifts from -300 to 299 with the
/// highest score the smallest in absolute value, and of two opposite shifts
/// the negative one.
pub open spec fn best_shift(detections: Seq<DetectedPageNumber>) -> int {
    choose|s: int| is_best_shift(detections, s, MAX_SHIFT_TEST as int)
}

/// The confidence in a shift, in millionths: its score as a part of the
/// score that it would have if every detection agreed with full
/// confidence, which is 100 for each detection.
pub open spec fn shift_confidence(detections: Seq<DetectedPageNumber>, shift: int) -> int {
    if detections.len() == 0 {
        0
    } else {
        shift_score(detections, shift) / (detections.len() as int * 100)
    }
}

/// The score of a shift is at most the largest confidence times the number
/// of detections, and its count at most their number.
pub proof fn lemma_shift_score_bounded(detections: Seq<DetectedPageNumber>, shift: int)
    ensures
        0 <= shift_score(detections, shift) <= detections.len() * (u32::MAX as int),
        0 <= shift_count(detections, shift) <= detections.len(),
    decreases detections.len(),
{
    if detections.len() > 0 {
        lemma_shift_score_bounded(detections.drop_last(), shift);
        let n = detections.len() as int;
        assert((n - 1) * (u32::MAX as int) + (u32::MAX as int) == n * (u32::MAX as int))
            by (nonlinear_arith);
    }
}

/// There is at most one best shift.
pub proof fn lemma_best_shift_unique(
    detections: Seq<DetectedPageNumber>,
    s1: int,
    s2: int,
    limit: int,
)
    requires
        is_best_shift(detections, s1, limit),
        is_best_shift(detections, s2, limit),
    ensures
        s1 == s2,
{
    if s1 < s2 {
        assert(shift_beats(detections, s2, s1));
        assert(!shift_beats(detections, s2, s1));
    } else if s2 < s1 {
        assert(shift_beats(detections, s1, s2));
        assert(!shift_beats(detections, s1, s2));
    }
}

/// The score and the count of one shift.
pub fn score_shift(detections: &[DetectedPageNumber], shift: i32) -> (r: (u128, usize))
    ensures
        r.0 == shift_score(detections@, shift as int),
        r.1 == shift_count(detections@, shift as int),
{
    let n: usize = detections.len();
    let mut score: u128 = 0;
    let mut count: usize = 0;
    let mut i: usize = 0;
    assert(detections@.take(0) =~= Seq::<DetectedPageNumber>::empty());
    while i < n
        invariant
            i <= n == detections.len(),
            score == shift_score(detections@.take(i as int), shift as int),
            count == shift_count(detections@.take(i as int), shift as int),
        decreases n - i,
    {
        proof {
            let longer = detections@.take(i as int + 1);
            assert(longer.drop_last() =~= detections@.take(i as int));
            assert(longer.last() == detections@[i as int]);
            lemma_shift_score_bounded(detections@.take(i as int), shift as int);
            assert(i * (u32::MAX as int) <= usize::MAX * (u32::MAX as int)) by (nonlinear_arith)
                requires
                    0 <= i <= usize::MAX,
            ;
        }
        if detection_agrees(&detections[i], shift) {
            score = score + detections[i].confidence as u128;
            count += 1;
        }
        i += 1;
    }
    assert(detections@.take(n as int) =~= detections@);
    (score, count)
}

/// Whether the number detected on a page is the one that the shift
/// predicts.
pub fn detection_agrees(d: &DetectedPageNumber, shift: i32) -> (a: bool)
    ensures
        a == agrees(*d, shift as int),
{
    let expected: i128 = d.page_index as i128 + 1 - shift as i128;
    match d.number {
        Some(n) => n >= 1 && n as i128 == expected,
        None => false,
    }
}

/// The absolute value of a shift.
pub fn magnitude_of(shift: i32) -> (m: i64)
    ensures
        m == magnitude(shift as int),
{
    if shift < 0 {
        -(shift as i64)
    } else {
        shift as i64
    }
}

/// Among the shifts from -300 up to, but not including, a limit there is a
/// best one.
pub proof fn lemma_best_shift_among(detections: Seq<DetectedPageNumber>, limit: int) -> (s: int)
    requires
        -MAX_SHIFT_TEST < limit <= MAX_SHIFT_TEST,
    ensures
        is_best_shift(detections, s, limit),
    decreases limit + MAX_SHIFT_TEST,
{
    if limit == -MAX_SHIFT_TEST + 1 {
        -MAX_SHIFT_TEST as int
    } else {
        let before = lemma_best_shift_among(detections, limit - 1);
        let last = limit - 1;
        if shift_beats(detections, last, before) {
            assert forall|t: int| -MAX_SHIFT_TEST <= t < limit implies !#[trigger] shift_beats(
                detections,
                t,
                last,
            ) by {
                if t < last {
                    assert(!shift_beats(detections, t, before));
                }
            }
            assert forall|t: int| -MAX_SHIFT_TEST <= t < last implies #[trigger] shift_beats(
                detections,
                last,
                t,
            ) by {
                assert(!shift_beats(detections, t, before));
            }
            last
        } else {
            before
        }
    }
}

/// The best shift of a book is a best shift: it lies from -300 to 299, no
/// shift in that range beats it, and it beats every smaller one.
pub proof fn lemma_best_shift_is_best(detections: Seq<DetectedPageNumber>)
    ensures
        is_best_shift(detections, best_shift(detections), MAX_SHIFT_TEST as int),
        -MAX_SHIFT_TEST <= best_shift(detections) < MAX_SHIFT_TEST,
{
    let s = lemma_best_shift_among(detections, MAX_SHIFT_TEST as int);
}

/// Whether every page carries its physical page number.
pub open spec fn numbered_as_scanned(detections: Seq<DetectedPageNumber>) -> bool {
    forall|i: int| 0 <= i < detections.len() ==> agrees(#[trigger] detections[i], 0)
}

/// Where every page agrees with the shift 0, no shift has a higher score.
pub proof fn lemma_no_shift_scores_highest(detections: Seq<DetectedPageNumber>, shift: int)
    requires
        numbered_as_scanned(detections),
    ensures
        shift_score(detections, shift) <= shift_score(detections, 0),
    decreases detections.len(),
{
    if detections.len() > 0 {
        let shorter = detections.drop_last();
        assert forall|i: int| 0 <= i < shorter.len() implies agrees(#[trigger] shorter[i], 0) by {
            assert(shorter[i] == detections[i]);
        }
        lemma_no_shift_scores_highest(shorter, shift);
        assert(agrees(detections[detections.len() - 1], 0));
    }
}

} // verus!
