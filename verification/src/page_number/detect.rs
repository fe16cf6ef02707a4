//! The matcher: for one page, the candidate that best answers the expected
//! page number, found by a cascade of four stages.
//!
//! The first stage that finds a candidate decides; within a stage the best
//! candidate wins, and among equally good ones the first in the list.

use vstd::prelude::*;
use vstd::arithmetic::power2::{lemma2_to64_rest, pow2};
use crate::numeric::{
    lemma_floor_sqrt_exists, lemma_floor_sqrt_monotone, lemma_millionths_bounded,
    millionths_from_bits, millionths_of_bits, round_div, ONE_BITS, SIGNIFICAND_UNIT,
};
use crate::page_number::geometry::{
    distance_milli, distance_sq, lemma_distance_milli_fits, milli_distance, Rectangle,
};
use crate::page_number::types::{MatchStage, PageNumberCandidate, PageNumberMatch};
use crate::text::{decimal_digits, decimal_text, trim_text, trimmed};

verus! {

/// The least similarity that the second stage accepts, in millionths.
pub const MIN_SIMILARITY_THRESHOLD: u32 = 700_000;

/// The least similarity that the second stage accepts, as the bit pattern of
/// the double-precision number nearest to seven tenths. Numbers from 0 to 1
/// are ordered as their bit patterns are.
pub const MIN_SIMILARITY_BITS: u64 = 0x3FE6_6666_6666_6666;

/// The margin by which the search region is grown before candidates are
/// tested against it, in percent.
pub const SEARCH_REGION_MARGIN_PERCENT: u32 = 3;

/// Where the reference point lies by default, as a part of the page height in
/// millionths.
pub const DEFAULT_REFERENCE_Y_RATIO: u32 = 950_000;

/// The region that is searched where the caller names none.
pub open spec fn default_search_region() -> Rectangle {
    Rectangle { x: 0, y: 0, width: 1000, height: 100 }
}

/// The Jaro-Winkler similarity of `a` and `b` as `strsim::jaro_winkler`
/// computes it: a double-precision number, given by its bit pattern.
pub uninterp spec fn jaro_winkler_bits(a: Seq<char>, b: Seq<char>) -> u64;

/// Calls `strsim::jaro_winkler` and hands back the bit pattern of its result,
/// which depends on the two texts alone.
#[verifier::external_body]
fn jaro_winkler(a: &str, b: &str) -> (bits: u64)
    ensures
        bits == jaro_winkler_bits(a@, b@),
{
    strsim::jaro_winkler(a, b).to_bits()
}

/// What one page is searched for: the expected number, the region in which
/// the first two stages look, and the point from which distances count.
pub struct Search {
    pub expected: u32,
    pub region: Rectangle,
    pub ref_x: i32,
    pub ref_y: i32,
}

/// The search that belongs to an expected number and a search region: the
/// region grown by its margin, and distances counted from its center.
pub open spec fn search_for(expected: u32, search_region: Rectangle) -> Search {
    Search {
        expected,
        region: search_region.spec_expand(SEARCH_REGION_MARGIN_PERCENT),
        ref_x: search_region.spec_center().0,
        ref_y: search_region.spec_center().1,
    }
}

/// Whether the center of the candidate's box lies in the region.
pub open spec fn in_region(c: PageNumberCandidate, region: Rectangle) -> bool {
    region.spec_contains(c.bbox.spec_center().0, c.bbox.spec_center().1)
}

/// The squared distance from the candidate to the reference point.
pub open spec fn reference_distance_sq(c: PageNumberCandidate, search: Search) -> int {
    c.bbox.spec_distance_sq_to(search.ref_x, search.ref_y) as int
}

/// The similarity of the candidate at `i`; none where the list has none.
pub open spec fn similarity_at(similarities: Seq<Option<u64>>, i: int) -> Option<u64> {
    if 0 <= i < similarities.len() {
        similarities[i]
    } else {
        None
    }
}

/// The bit pattern of a similarity; that of 0 for none.
pub open spec fn bits_of(similarity: Option<u64>) -> u64 {
    match similarity {
        Some(bits) => bits,
        None => 0,
    }
}

/// The similarity of a text to the decimal text of the expected number: that
/// of the trimmed text, and none for a blank text.
pub open spec fn similarity_of(text: Seq<char>, expected: u32) -> Option<u64> {
    if trimmed(text).len() > 0 {
        Some(jaro_winkler_bits(decimal_digits(expected as nat), trimmed(text)))
    } else {
        None
    }
}

/// The similarity of each candidate's text to the decimal text of the
/// expected number.
pub open spec fn similarities(candidates: Seq<PageNumberCandidate>, expected: u32) -> Seq<
    Option<u64>,
> {
    Seq::new(candidates.len(), |i: int| similarity_of(candidates[i].text@, expected))
}

/// Whether a stage considers a candidate at all: the first stage asks for
/// the expected number inside the region, the second for a candidate inside
/// the region with a similarity of seven tenths or more, the third for any
/// recognised text, the last for nothing.
pub open spec fn considers(
    stage: MatchStage,
    c: PageNumberCandidate,
    similarity: Option<u64>,
    expected: u32,
    region: Rectangle,
) -> bool {
    match stage {
        MatchStage::ExactMatch => c.number == Some(expected) && in_region(c, region),
        MatchStage::SimilarityMatch => in_region(c, region) && similarity is Some && bits_of(
            similarity,
        ) >= MIN_SIMILARITY_BITS,
        MatchStage::OcrSuccessMatch => c.ocr_success,
        MatchStage::FallbackMatch => true,
    }
}

/// Whether a stage considers a candidate in the given search.
pub open spec fn eligible(
    stage: MatchStage,
    c: PageNumberCandidate,
    similarity: Option<u64>,
    search: Search,
) -> bool {
    considers(stage, c, similarity, search.expected, search.region)
}

/// Whether a stage prefers the first candidate to the second: the second
/// stage prefers the higher similarity and, at equal similarity, the smaller
/// distance; the other stages prefer the smaller distance.
pub open spec fn outranks(
    stage: MatchStage,
    c1: PageNumberCandidate,
    similarity1: Option<u64>,
    c2: PageNumberCandidate,
    similarity2: Option<u64>,
    search: Search,
) -> bool {
    let nearer = reference_distance_sq(c1, search) < reference_distance_sq(c2, search);
    if stage == MatchStage::SimilarityMatch {
        bits_of(similarity1) > bits_of(similarity2) || (bits_of(similarity1) == bits_of(
            similarity2,
        ) && nearer)
    } else {
        nearer
    }
}

/// Whether the candidate at `w` wins the stage among the first `n`
/// candidates: the stage considers it, considers none that it prefers to it,
/// and prefers it to every one that it considers before it.
pub open spec fn is_winner(
    stage: MatchStage,
    candidates: Seq<PageNumberCandidate>,
    similarities: Seq<Option<u64>>,
    search: Search,
    n: int,
    w: int,
) -> bool {
    &&& 0 <= w < n <= candidates.len()
    &&& eligible(stage, candidates[w], similarity_at(similarities, w), search)
    &&& forall|j: int|
        0 <= j < n && eligible(stage, #[trigger] candidates[j], similarity_at(similarities, j), search)
            ==> !outranks(
            stage,
            candidates[j],
            similarity_at(similarities, j),
            candidates[w],
            similarity_at(similarities, w),
            search,
        )
    &&& forall|j: int|
        0 <= j < w && eligible(stage, #[trigger] candidates[j], similarity_at(similarities, j), search)
            ==> outranks(
            stage,
            candidates[w],
            similarity_at(similarities, w),
            candidates[j],
            similarity_at(similarities, j),
            search,
        )
}

/// Whether the stage considers any of the candidates.
pub open spec fn has_eligible(
    stage: MatchStage,
    candidates: Seq<PageNumberCandidate>,
    similarities: Seq<Option<u64>>,
    search: Search,
) -> bool {
    exists|j: int|
        0 <= j < candidates.len() && eligible(
            stage,
            #[trigger] candidates[j],
            similarity_at(similarities, j),
            search,
        )
}

/// The position of the stage's winner among all candidates.
pub open spec fn winner_index(
    stage: MatchStage,
    candidates: Seq<PageNumberCandidate>,
    similarities: Seq<Option<u64>>,
    search: Search,
) -> int {
    choose|w: int| is_winner(stage, candidates, similarities, search, candidates.len() as int, w)
}

/// The score that a stage gives a candidate, in millionths: one whole for
/// the expected number, the similarity for a similar text, the recognition
/// confidence where some text was read, and nothing at the last stage.
pub open spec fn stage_score(
    stage: MatchStage,
    c: PageNumberCandidate,
    similarity: Option<u64>,
) -> u32 {
    match stage {
        MatchStage::ExactMatch => 1_000_000,
        MatchStage::SimilarityMatch => millionths_of_bits(bits_of(similarity)) as u32,
        MatchStage::OcrSuccessMatch => c.confidence,
        MatchStage::FallbackMatch => 0,
    }
}

/// The match that a stage reports for a candidate.
pub open spec fn match_of(
    stage: MatchStage,
    c: PageNumberCandidate,
    similarity: Option<u64>,
    search: Search,
) -> PageNumberMatch {
    PageNumberMatch {
        candidate: c,
        stage,
        score: stage_score(stage, c, similarity),
        distance: distance_milli(reference_distance_sq(c, search)) as u64,
        expected_number: search.expected,
    }
}

/// What a stage reports: the match for its winner, or nothing where it
/// considers no candidate.
pub open spec fn stage_match(
    stage: MatchStage,
    candidates: Seq<PageNumberCandidate>,
    similarities: Seq<Option<u64>>,
    search: Search,
) -> Option<PageNumberMatch> {
    if has_eligible(stage, candidates, similarities, search) {
        let w = winner_index(stage, candidates, similarities, search);
        Some(match_of(stage, candidates[w], similarity_at(similarities, w), search))
    } else {
        None
    }
}

/// What the cascade reports: the match of the first stage that has one.
pub open spec fn cascade(
    candidates: Seq<PageNumberCandidate>,
    similarities: Seq<Option<u64>>,
    search: Search,
) -> Option<PageNumberMatch> {
    if stage_match(MatchStage::ExactMatch, candidates, similarities, search) is Some {
        stage_match(MatchStage::ExactMatch, candidates, similarities, search)
    } else if stage_match(MatchStage::SimilarityMatch, candidates, similarities, search) is Some {
        stage_match(MatchStage::SimilarityMatch, candidates, similarities, search)
    } else if stage_match(MatchStage::OcrSuccessMatch, candidates, similarities, search) is Some {
        stage_match(MatchStage::OcrSuccessMatch, candidates, similarities, search)
    } else {
        stage_match(MatchStage::FallbackMatch, candidates, similarities, search)
    }
}

/// A stage has at most one winner.
pub proof fn lemma_winner_unique(
    stage: MatchStage,
    candidates: Seq<PageNumberCandidate>,
    similarities: Seq<Option<u64>>,
    search: Search,
    n: int,
    w1: int,
    w2: int,
)
    requires
        is_winner(stage, candidates, similarities, search, n, w1),
        is_winner(stage, candidates, similarities, search, n, w2),
    ensures
        w1 == w2,
{
    if w1 < w2 {
        assert(eligible(stage, candidates[w1], similarity_at(similarities, w1), search));
    } else if w2 < w1 {
        assert(eligible(stage, candidates[w2], similarity_at(similarities, w2), search));
    }
}

/// A stage that considers one of the first `n` candidates has a winner among
/// them.
pub proof fn lemma_winner_exists(
    stage: MatchStage,
    candidates: Seq<PageNumberCandidate>,
    similarities: Seq<Option<u64>>,
    search: Search,
    n: int,
) -> (w: int)
    requires
        0 <= n <= candidates.len(),
        exists|j: int|
            0 <= j < n && eligible(
                stage,
                #[trigger] candidates[j],
                similarity_at(similarities, j),
                search,
            ),
    ensures
        is_winner(stage, candidates, similarities, search, n, w),
    decreases n,
{
    let last = n - 1;
    let last_eligible = eligible(
        stage,
        candidates[last],
        similarity_at(similarities, last),
        search,
    );
    if exists|j: int|
        0 <= j < last && eligible(
            stage,
            #[trigger] candidates[j],
            similarity_at(similarities, j),
            search,
        ) {
        let w = lemma_winner_exists(stage, candidates, similarities, search, last);
        if last_eligible && outranks(
            stage,
            candidates[last],
            similarity_at(similarities, last),
            candidates[w],
            similarity_at(similarities, w),
            search,
        ) {
            last
        } else {
            w
        }
    } else {
        assert(last_eligible);
        last
    }
}

/// A stage that considers the candidate at `j` reports the match of its
/// winner.
pub proof fn lemma_stage_reports_winner(
    stage: MatchStage,
    candidates: Seq<PageNumberCandidate>,
    similarities: Seq<Option<u64>>,
    search: Search,
    j: int,
) -> (w: int)
    requires
        0 <= j < candidates.len(),
        eligible(stage, candidates[j], similarity_at(similarities, j), search),
    ensures
        w == winner_index(stage, candidates, similarities, search),
        is_winner(stage, candidates, similarities, search, candidates.len() as int, w),
        stage_match(stage, candidates, similarities, search) == Some(
            match_of(stage, candidates[w], similarity_at(similarities, w), search),
        ),
{
    let found = lemma_winner_exists(
        stage,
        candidates,
        similarities,
        search,
        candidates.len() as int,
    );
    winner_index(stage, candidates, similarities, search)
}

/// The distance that a match reports is the Euclidean distance from the
/// center of the candidate's box to the reference point, in thousandths of
/// a pixel.
pub proof fn lemma_match_distance(
    stage: MatchStage,
    c: PageNumberCandidate,
    similarity: Option<u64>,
    search: Search,
)
    ensures
        match_of(stage, c, similarity, search).distance == distance_milli(
            distance_sq(
                c.bbox.spec_center().0 as int,
                c.bbox.spec_center().1 as int,
                search.ref_x as int,
                search.ref_y as int,
            ),
        ),
{
    lemma_distance_milli_fits(
        c.bbox.spec_center().0,
        c.bbox.spec_center().1,
        search.ref_x,
        search.ref_y,
    );
}

/// Whenever some candidate carries the expected number inside the region,
/// the page is matched at the first stage, with a score of one whole, by a
/// candidate that carries the expected number inside the region, and the
/// distance reported is the Euclidean distance from the center of that
/// candidate's box to the reference point.
pub proof fn law_exact_match_wins(
    candidates: Seq<PageNumberCandidate>,
    similarities: Seq<Option<u64>>,
    search: Search,
    j: int,
)
    requires
        0 <= j < candidates.len(),
        candidates[j].number == Some(search.expected),
        in_region(candidates[j], search.region),
    ensures
        cascade(candidates, similarities, search) matches Some(m) && {
            &&& m.stage == MatchStage::ExactMatch
            &&& m.score == 1_000_000
            &&& m.expected_number == search.expected
            &&& candidates.contains(m.candidate)
            &&& m.candidate.number == Some(search.expected)
            &&& in_region(m.candidate, search.region)
            &&& m.distance == distance_milli(
                distance_sq(
                    m.candidate.bbox.spec_center().0 as int,
                    m.candidate.bbox.spec_center().1 as int,
                    search.ref_x as int,
                    search.ref_y as int,
                ),
            )
        },
{
    let w = lemma_stage_reports_winner(
        MatchStage::ExactMatch,
        candidates,
        similarities,
        search,
        j,
    );
    lemma_match_distance(
        MatchStage::ExactMatch,
        candidates[w],
        similarity_at(similarities, w),
        search,
    );
}

/// Of the candidates that carry the expected number inside the region, the
/// match is one nearest to the reference point: none of them is nearer.
pub proof fn law_exact_match_is_nearest(
    candidates: Seq<PageNumberCandidate>,
    similarities: Seq<Option<u64>>,
    search: Search,
    j: int,
)
    requires
        0 <= j < candidates.len(),
        candidates[j].number == Some(search.expected),
        in_region(candidates[j], search.region),
    ensures
        cascade(candidates, similarities, search) matches Some(m) && {
            &&& reference_distance_sq(m.candidate, search) <= reference_distance_sq(
                candidates[j],
                search,
            )
            &&& m.distance <= distance_milli(reference_distance_sq(candidates[j], search))
        },
{
    let w = lemma_stage_reports_winner(
        MatchStage::ExactMatch,
        candidates,
        similarities,
        search,
        j,
    );
    lemma_match_distance(
        MatchStage::ExactMatch,
        candidates[w],
        similarity_at(similarities, w),
        search,
    );
    let nearest = reference_distance_sq(candidates[w], search);
    let other = reference_distance_sq(candidates[j], search);
    lemma_distance_milli_fits(
        candidates[w].bbox.spec_center().0,
        candidates[w].bbox.spec_center().1,
        search.ref_x,
        search.ref_y,
    );
    lemma_distance_milli_fits(
        candidates[j].bbox.spec_center().0,
        candidates[j].bbox.spec_center().1,
        search.ref_x,
        search.ref_y,
    );
    lemma_floor_sqrt_exists((1_000_000 * nearest) as nat);
    lemma_floor_sqrt_exists((1_000_000 * other) as nat);
    lemma_floor_sqrt_monotone(
        1_000_000 * nearest,
        distance_milli(nearest),
        1_000_000 * other,
        distance_milli(other),
    );
}

/// Where no candidate carries the expected number inside the region, but
/// some candidate inside the region has a similarity of seven tenths or
/// more, the page is matched at the second stage. The score is the similarity of the matched candidate, which is the
/// greatest similarity among such candidates.
pub proof fn law_similarity_match(
    candidates: Seq<PageNumberCandidate>,
    similarities: Seq<Option<u64>>,
    search: Search,
    j: int,
)
    requires
        !has_eligible(MatchStage::ExactMatch, candidates, similarities, search),
        0 <= j < candidates.len(),
        in_region(candidates[j], search.region),
        similarity_at(similarities, j) matches Some(bits) && bits >= MIN_SIMILARITY_BITS,
    ensures
        cascade(candidates, similarities, search) matches Some(m) && {
            let w = winner_index(MatchStage::SimilarityMatch, candidates, similarities, search);
            &&& m.stage == MatchStage::SimilarityMatch
            &&& 0 <= w < candidates.len()
            &&& m.candidate == candidates[w]
            &&& in_region(m.candidate, search.region)
            &&& similarity_at(similarities, w) is Some
            &&& m.score == millionths_of_bits(bits_of(similarity_at(similarities, w)))
            &&& bits_of(similarity_at(similarities, w)) >= bits_of(similarity_at(similarities, j))
            &&& m.score >= MIN_SIMILARITY_THRESHOLD
        },
{
    let w = lemma_stage_reports_winner(
        MatchStage::SimilarityMatch,
        candidates,
        similarities,
        search,
        j,
    );
    lemma_similar_enough(bits_of(similarity_at(similarities, w)));
    lemma_millionths_bounded(bits_of(similarity_at(similarities, w)));
}

/// Where the first two stages consider no candidate but some candidate has
/// recognised text, the page is matched at the third stage, by a candidate
/// with recognised text, and the score is its recognition confidence.
pub proof fn law_ocr_success_match(
    candidates: Seq<PageNumberCandidate>,
    similarities: Seq<Option<u64>>,
    search: Search,
    j: int,
)
    requires
        !has_eligible(MatchStage::ExactMatch, candidates, similarities, search),
        !has_eligible(MatchStage::SimilarityMatch, candidates, similarities, search),
        0 <= j < candidates.len(),
        candidates[j].ocr_success,
    ensures
        cascade(candidates, similarities, search) matches Some(m) && {
            &&& m.stage == MatchStage::OcrSuccessMatch
            &&& candidates.contains(m.candidate)
            &&& m.candidate.ocr_success
            &&& m.score == m.candidate.confidence
            &&& reference_distance_sq(m.candidate, search) <= reference_distance_sq(
                candidates[j],
                search,
            )
        },
{
    let w = lemma_stage_reports_winner(
        MatchStage::OcrSuccessMatch,
        candidates,
        similarities,
        search,
        j,
    );
}

/// Where no candidate has recognised text and the first two stages consider
/// none, a page with candidates is matched at the last stage, with score 0,
/// by a candidate nearest to the reference point.
pub proof fn law_fallback_match(
    candidates: Seq<PageNumberCandidate>,
    similarities: Seq<Option<u64>>,
    search: Search,
    j: int,
)
    requires
        !has_eligible(MatchStage::ExactMatch, candidates, similarities, search),
        !has_eligible(MatchStage::SimilarityMatch, candidates, similarities, search),
        !has_eligible(MatchStage::OcrSuccessMatch, candidates, similarities, search),
        0 <= j < candidates.len(),
    ensures
        cascade(candidates, similarities, search) matches Some(m) && {
            &&& m.stage == MatchStage::FallbackMatch
            &&& candidates.contains(m.candidate)
            &&& m.score == 0
            &&& reference_distance_sq(m.candidate, search) <= reference_distance_sq(
                candidates[j],
                search,
            )
        },
{
    let w = lemma_stage_reports_winner(
        MatchStage::FallbackMatch,
        candidates,
        similarities,
        search,
        j,
    );
}

/// A page without candidates has no match, whatever is searched for; a page
/// with candidates has one.
pub proof fn law_match_iff_candidates(
    candidates: Seq<PageNumberCandidate>,
    similarities: Seq<Option<u64>>,
    search: Search,
)
    ensures
        cascade(candidates, similarities, search) is None <==> candidates.len() == 0,
{
    if candidates.len() > 0 {
        let w = lemma_stage_reports_winner(
            MatchStage::FallbackMatch,
            candidates,
            similarities,
            search,
            0,
        );
    }
}

/// What a stage's match says of its candidate: it is one of the
/// candidates, the stage considers it, and the match reports the stage's
/// score for it and its distance to the reference point.
pub open spec fn describes_candidate(
    m: PageNumberMatch,
    candidates: Seq<PageNumberCandidate>,
    search: Search,
) -> bool {
    &&& candidates.contains(m.candidate)
    &&& m.expected_number == search.expected
    &&& m.distance == distance_milli(
        distance_sq(
            m.candidate.bbox.spec_center().0 as int,
            m.candidate.bbox.spec_center().1 as int,
            search.ref_x as int,
            search.ref_y as int,
        ),
    )
    &&& match m.stage {
        MatchStage::ExactMatch => m.score == 1_000_000 && m.candidate.number == Some(
            search.expected,
        ) && in_region(m.candidate, search.region),
        MatchStage::SimilarityMatch => MIN_SIMILARITY_THRESHOLD <= m.score <= 1_000_000
            && in_region(m.candidate, search.region),
        MatchStage::OcrSuccessMatch => m.score == m.candidate.confidence
            && m.candidate.ocr_success,
        MatchStage::FallbackMatch => m.score == 0,
    }
}

/// What a stage reports describes one of the candidates.
pub proof fn lemma_stage_match_describes(
    stage: MatchStage,
    candidates: Seq<PageNumberCandidate>,
    similarities: Seq<Option<u64>>,
    search: Search,
)
    ensures
        stage_match(stage, candidates, similarities, search) matches Some(m) ==> m.stage == stage
            && describes_candidate(m, candidates, search),
{
    if has_eligible(stage, candidates, similarities, search) {
        let j = choose|j: int|
            0 <= j < candidates.len() && eligible(
                stage,
                #[trigger] candidates[j],
                similarity_at(similarities, j),
                search,
            );
        let w = lemma_stage_reports_winner(stage, candidates, similarities, search, j);
        lemma_match_distance(stage, candidates[w], similarity_at(similarities, w), search);
        if stage == MatchStage::SimilarityMatch {
            lemma_similar_enough(bits_of(similarity_at(similarities, w)));
            lemma_millionths_bounded(bits_of(similarity_at(similarities, w)));
        }
    }
}

/// Whatever the cascade reports describes one of the candidates: the match
/// carries the expected number, the distance from the center of its
/// candidate's box to the reference point, and the score that its stage
/// gives its candidate.
pub proof fn law_match_describes_candidate(
    candidates: Seq<PageNumberCandidate>,
    similarities: Seq<Option<u64>>,
    search: Search,
)
    ensures
        cascade(candidates, similarities, search) matches Some(m) ==> describes_candidate(
            m,
            candidates,
            search,
        ),
{
    lemma_stage_match_describes(MatchStage::ExactMatch, candidates, similarities, search);
    lemma_stage_match_describes(MatchStage::SimilarityMatch, candidates, similarities, search);
    lemma_stage_match_describes(MatchStage::OcrSuccessMatch, candidates, similarities, search);
    lemma_stage_match_describes(MatchStage::FallbackMatch, candidates, similarities, search);
}

/// A similarity that the second stage accepts is at least seven tenths when
/// counted in millionths.
pub proof fn lemma_similar_enough(bits: u64)
    requires
        bits >= MIN_SIMILARITY_BITS,
    ensures
        millionths_of_bits(bits) >= MIN_SIMILARITY_THRESHOLD,
{
    if bits < ONE_BITS {
        let e = (bits / SIGNIFICAND_UNIT) as int;
        let fraction = (bits % SIGNIFICAND_UNIT) as int;
        let significand = SIGNIFICAND_UNIT as int + fraction;
        assert(e == 1022);
        assert(fraction >= 0x6_6666_6666_6666);
        lemma2_to64_rest();
        assert(pow2(53) == 0x20_0000_0000_0000);
        let numerator = 2 * (significand * 1_000_000) + 0x20_0000_0000_0000;
        assert(numerator >= 700_000 * 0x40_0000_0000_0000) by (nonlinear_arith)
            requires
                numerator == 2 * (significand * 1_000_000) + 0x20_0000_0000_0000,
                significand >= 0x16_6666_6666_6666,
        ;
        assert(numerator / 0x40_0000_0000_0000 >= 700_000) by (nonlinear_arith)
            requires
                numerator >= 700_000 * 0x40_0000_0000_0000,
        ;
        assert(round_div(significand * 1_000_000, 0x20_0000_0000_0000) == numerator
            / 0x40_0000_0000_0000);
    }
}

/// Whether a stage considers the candidate.
fn is_eligible(
    stage: MatchStage,
    c: &PageNumberCandidate,
    similarity: Option<u64>,
    expected_number: u32,
    region: &Rectangle,
) -> (e: bool)
    ensures
        e == considers(stage, *c, similarity, expected_number, *region),
{
    let center = c.bbox.center();
    match stage {
        MatchStage::ExactMatch => {
            let same = match c.number {
                Some(n) => n == expected_number,
                None => false,
            };
            same && region.contains(center.0, center.1)
        },
        MatchStage::SimilarityMatch => {
            let enough = match similarity {
                Some(bits) => bits >= MIN_SIMILARITY_BITS,
                None => false,
            };
            region.contains(center.0, center.1) && enough
        },
        MatchStage::OcrSuccessMatch => c.ocr_success,
        MatchStage::FallbackMatch => true,
    }
}

/// Runs one stage of the cascade: reports the stage's winner among the
/// candidates, or nothing where the stage considers none of them. A
/// candidate without an entry in `similarities` has no similarity.
pub fn run_stage(
    stage: MatchStage,
    candidates: &[PageNumberCandidate],
    similarities: &[Option<u64>],
    expected_number: u32,
    region: &Rectangle,
    ref_x: i32,
    ref_y: i32,
) -> (m: Option<PageNumberMatch>)
    ensures
        m == stage_match(
            stage,
            candidates@,
            similarities@,
            Search { expected: expected_number, region: *region, ref_x, ref_y },
        ),
{
    let ghost search = Search { expected: expected_number, region: *region, ref_x, ref_y };
    let n: usize = candidates.len();
    let mut best: Option<usize> = None;
    let mut best_distance: u128 = 0;
    let mut best_similarity: u64 = 0;
    let mut i: usize = 0;
    while i < n
        invariant
            i <= n == candidates.len(),
            search == (Search { expected: expected_number, region: *region, ref_x, ref_y }),
            best_distance <= 0x1_FFFF_FFFF_0000_0002,
            match best {
                Some(w) => {
                    &&& is_winner(stage, candidates@, similarities@, search, i as int, w as int)
                    &&& best_distance == reference_distance_sq(candidates@[w as int], search)
                    &&& best_similarity == bits_of(similarity_at(similarities@, w as int))
                },
                None => forall|j: int|
                    0 <= j < i ==> !eligible(
                        stage,
                        #[trigger] candidates@[j],
                        similarity_at(similarities@, j),
                        search,
                    ),
            },
        decreases n - i,
    {
        let c = &candidates[i];
        let similarity: Option<u64> = if i < similarities.len() {
            similarities[i]
        } else {
            None
        };
        if is_eligible(stage, c, similarity, expected_number, region) {
            let distance: u128 = c.bbox.distance_sq_to(ref_x, ref_y);
            let bits: u64 = match similarity {
                Some(bits) => bits,
                None => 0,
            };
            let better = match best {
                None => true,
                Some(_) => if stage == MatchStage::SimilarityMatch {
                    bits > best_similarity || (bits == best_similarity && distance < best_distance)
                } else {
                    distance < best_distance
                },
            };
            if better {
                best = Some(i);
                best_distance = distance;
                best_similarity = bits;
            }
        }
        i += 1;
    }
    match best {
        None => None,
        Some(w) => {
            proof {
                assert(eligible(
                    stage,
                    candidates@[w as int],
                    similarity_at(similarities@, w as int),
                    search,
                ));
                let chosen = winner_index(stage, candidates@, similarities@, search);
                lemma_winner_unique(
                    stage,
                    candidates@,
                    similarities@,
                    search,
                    n as int,
                    w as int,
                    chosen,
                );
            }
            let score: u32 = match stage {
                MatchStage::ExactMatch => 1_000_000,
                MatchStage::SimilarityMatch => millionths_from_bits(best_similarity),
                MatchStage::OcrSuccessMatch => candidates[w].confidence,
                MatchStage::FallbackMatch => 0,
            };
            Some(
                PageNumberMatch::new(
                    candidates[w].clone(),
                    stage,
                    score,
                    milli_distance(best_distance),
                    expected_number,
                ),
            )
        },
    }
}

/// The first stage: among the candidates with the expected number inside
/// the region, the nearest to the reference point. Its score is one whole.
pub fn stage1_exact_match(
    candidates: &[PageNumberCandidate],
    similarities: &[Option<u64>],
    expected_number: u32,
    region: &Rectangle,
    ref_x: i32,
    ref_y: i32,
) -> (m: Option<PageNumberMatch>)
    ensures
        m == stage_match(
            MatchStage::ExactMatch,
            candidates@,
            similarities@,
            Search { expected: expected_number, region: *region, ref_x, ref_y },
        ),
{
    run_stage(
        MatchStage::ExactMatch,
        candidates,
        similarities,
        expected_number,
        region,
        ref_x,
        ref_y,
    )
}

/// The second stage: among the candidates inside the region with a
/// similarity of seven tenths or more, the most similar, and among equally
/// similar ones the nearest. Its score is the similarity.
pub fn stage2_similarity_match(
    candidates: &[PageNumberCandidate],
    similarities: &[Option<u64>],
    expected_number: u32,
    region: &Rectangle,
    ref_x: i32,
    ref_y: i32,
) -> (m: Option<PageNumberMatch>)
    ensures
        m == stage_match(
            MatchStage::SimilarityMatch,
            candidates@,
            similarities@,
            Search { expected: expected_number, region: *region, ref_x, ref_y },
        ),
{
    run_stage(
        MatchStage::SimilarityMatch,
        candidates,
        similarities,
        expected_number,
        region,
        ref_x,
        ref_y,
    )
}

/// The third stage: among all candidates with recognised text, inside the
/// region or not, the nearest. Its score is the recognition confidence.
pub fn stage3_ocr_success_match(
    candidates: &[PageNumberCandidate],
    similarities: &[Option<u64>],
    expected_number: u32,
    region: &Rectangle,
    ref_x: i32,
    ref_y: i32,
) -> (m: Option<PageNumberMatch>)
    ensures
        m == stage_match(
            MatchStage::OcrSuccessMatch,
            candidates@,
            similarities@,
            Search { expected: expected_number, region: *region, ref_x, ref_y },
        ),
{
    run_stage(
        MatchStage::OcrSuccessMatch,
        candidates,
        similarities,
        expected_number,
        region,
        ref_x,
        ref_y,
    )
}

/// The last stage: of all candidates the nearest. Its score is 0.
pub fn stage4_fallback_match(
    candidates: &[PageNumberCandidate],
    similarities: &[Option<u64>],
    expected_number: u32,
    region: &Rectangle,
    ref_x: i32,
    ref_y: i32,
) -> (m: Option<PageNumberMatch>)
    ensures
        m == stage_match(
            MatchStage::FallbackMatch,
            candidates@,
            similarities@,
            Search { expected: expected_number, region: *region, ref_x, ref_y },
        ),
{
    run_stage(
        MatchStage::FallbackMatch,
        candidates,
        similarities,
        expected_number,
        region,
        ref_x,
        ref_y,
    )
}

/// Finds the page number among the candidates of one page, given the
/// similarity of each candidate's text to the expected number: the stages
/// run in order, and the first that reports a match decides.
pub fn select_match(
    candidates: &[PageNumberCandidate],
    similarities: &[Option<u64>],
    expected_number: u32,
    search_region: &Rectangle,
) -> (m: Option<PageNumberMatch>)
    ensures
        m == cascade(candidates@, similarities@, search_for(expected_number, *search_region)),
        m is None <==> candidates.len() == 0,
        m matches Some(found) ==> describes_candidate(
            found,
            candidates@,
            search_for(expected_number, *search_region),
        ),
{
    proof {
        law_match_describes_candidate(
            candidates@,
            similarities@,
            search_for(expected_number, *search_region),
        );
    }
    let reference = search_region.center();
    let region = search_region.expand(SEARCH_REGION_MARGIN_PERCENT);
    proof {
        let search = search_for(expected_number, *search_region);
        if candidates.len() > 0 {
            assert(eligible(
                MatchStage::FallbackMatch,
                candidates@[0],
                similarity_at(similarities@, 0),
                search,
            ));
        }
    }
    let exact = stage1_exact_match(
        candidates,
        similarities,
        expected_number,
        &region,
        reference.0,
        reference.1,
    );
    if exact.is_some() {
        return exact;
    }
    let similar = stage2_similarity_match(
        candidates,
        similarities,
        expected_number,
        &region,
        reference.0,
        reference.1,
    );
    if similar.is_some() {
        return similar;
    }
    let recognised = stage3_ocr_success_match(
        candidates,
        similarities,
        expected_number,
        &region,
        reference.0,
        reference.1,
    );
    if recognised.is_some() {
        return recognised;
    }
    stage4_fallback_match(
        candidates,
        similarities,
        expected_number,
        &region,
        reference.0,
        reference.1,
    )
}

/// The similarity of each candidate's text to the decimal text of the
/// expected number: that of the trimmed text, and none for a blank text.
pub fn similarity_scores(candidates: &[PageNumberCandidate], expected_number: u32) -> (v: Vec<
    Option<u64>,
>)
    ensures
        v@ == similarities(candidates@, expected_number),
{
    let expected_text = decimal_text(expected_number);
    let n: usize = candidates.len();
    let mut v: Vec<Option<u64>> = Vec::new();
    let mut i: usize = 0;
    while i < n
        invariant
            i <= n == candidates.len(),
            expected_text@ == decimal_digits(expected_number as nat),
            v@ == similarities(candidates@, expected_number).take(i as int),
        decreases n - i,
    {
        let text = trim_text(candidates[i].text.as_str());
        let similarity: Option<u64> = if text.as_str().is_empty() {
            None
        } else {
            Some(jaro_winkler(expected_text.as_str(), text.as_str()))
        };
        v.push(similarity);
        assert(v@ =~= similarities(candidates@, expected_number).take(i as int + 1));
        i += 1;
    }
    assert(similarities(candidates@, expected_number).take(n as int) =~= similarities(
        candidates@,
        expected_number,
    ));
    v
}

/// Finds the page number among the candidates of one page. Returns nothing
/// only for an empty list.
pub fn find_page_number_with_fallback(
    candidates: &[PageNumberCandidate],
    expected_number: u32,
    search_region: &Rectangle,
) -> (m: Option<PageNumberMatch>)
    ensures
        m == cascade(
            candidates@,
            similarities(candidates@, expected_number),
            search_for(expected_number, *search_region),
        ),
        m is None <==> candidates.len() == 0,
        m matches Some(found) ==> describes_candidate(
            found,
            candidates@,
            search_for(expected_number, *search_region),
        ),
{
    let scores = similarity_scores(candidates, expected_number);
    select_match(candidates, scores.as_slice(), expected_number, search_region)
}

/// The region in which page `i` of a batch is searched: the caller's, or the
/// default one where the caller's list is too short.
pub open spec fn batch_region(search_regions: Seq<Rectangle>, i: int) -> Rectangle {
    if 0 <= i < search_regions.len() {
        search_regions[i]
    } else {
        default_search_region()
    }
}

/// What a batch reports for its page `i`.
pub open spec fn batch_match(
    page_candidates: Seq<Vec<PageNumberCandidate>>,
    start_page_number: u32,
    search_regions: Seq<Rectangle>,
    i: int,
) -> Option<PageNumberMatch> {
    let expected = (start_page_number + i) as u32;
    cascade(
        page_candidates[i]@,
        similarities(page_candidates[i]@, expected),
        search_for(expected, batch_region(search_regions, i)),
    )
}

/// Finds the page number on each page of a batch. Page `i` is expected to
/// carry the number `start_page_number + i` and is searched in the region at
/// `i`, or in the default region where there is none. No page depends on
/// another.
pub fn find_page_numbers_batch(
    page_candidates: &[Vec<PageNumberCandidate>],
    start_page_number: u32,
    search_regions: &[Rectangle],
) -> (matches: Vec<Option<PageNumberMatch>>)
    requires
        start_page_number + page_candidates.len() <= u32::MAX + 1,
    ensures
        matches.len() == page_candidates.len(),
        forall|i: int|
            0 <= i < page_candidates.len() ==> #[trigger] matches[i] == batch_match(
                page_candidates@,
                start_page_number,
                search_regions@,
                i,
            ),
{
    let n: usize = page_candidates.len();
    let mut matches: Vec<Option<PageNumberMatch>> = Vec::new();
    let mut i: usize = 0;
    while i < n
        invariant
            i <= n == page_candidates.len(),
            start_page_number + n <= u32::MAX + 1,
            matches.len() == i,
            forall|k: int|
                0 <= k < i ==> #[trigger] matches[k] == batch_match(
                    page_candidates@,
                    start_page_number,
                    search_regions@,
                    k,
                ),
        decreases n - i,
    {
        let expected: u32 = start_page_number + i as u32;
        let region = if i < search_regions.len() {
            search_regions[i]
        } else {
            Rectangle::new(0, 0, 1000, 100)
        };
        let found = find_page_number_with_fallback(
            page_candidates[i].as_slice(),
            expected,
            &region,
        );
        matches.push(found);
        i += 1;
    }
    matches
}

/// How the pages of a batch fared: how many matches each stage found, and
/// how many pages have no match.
#[derive(Debug, Clone, Copy, PartialEq, Eq, Structural)]
pub struct FallbackMatchStats {
    pub total: usize,
    pub stage1_exact: usize,
    pub stage2_similarity: usize,
    pub stage3_ocr_success: usize,
    pub stage4_fallback: usize,
    pub not_found: usize,
}

/// The stage of a page's match; nothing for a page without a match.
pub open spec fn outcome_of(m: Option<PageNumberMatch>) -> Option<MatchStage> {
    match m {
        Some(found) => Some(found.stage),
        None => None,
    }
}

/// The number of pages with the given outcome.
pub open spec fn count_outcome(
    matches: Seq<Option<PageNumberMatch>>,
    outcome: Option<MatchStage>,
) -> nat
    decreases matches.len(),
{
    if matches.len() == 0 {
        0
    } else {
        count_outcome(matches.drop_last(), outcome) + if outcome_of(matches.last()) == outcome {
            1nat
        } else {
            0nat
        }
    }
}

/// A part of a whole in millionths, rounded down and limited to 64 bits; 0
/// where the whole is 0.
pub open spec fn rate_of(part: int, whole: int) -> int {
    if whole <= 0 || part <= 0 {
        0
    } else if part * 1_000_000 / whole > u64::MAX as int {
        u64::MAX as int
    } else {
        part * 1_000_000 / whole
    }
}

/// A part of a whole in millionths.
fn rate(part: u128, whole: usize) -> (r: u64)
    requires
        part <= 0x2_0000_0000_0000_0000,
    ensures
        r == rate_of(part as int, whole as int),
{
    if whole == 0 {
        return 0;
    }
    let quotient: u128 = part * 1_000_000 / whole as u128;
    if quotient > u64::MAX as u128 {
        u64::MAX
    } else {
        quotient as u64
    }
}

impl Default for FallbackMatchStats {
    /// No page at all.
    fn default() -> (s: Self)
        ensures
            s == (FallbackMatchStats {
                total: 0,
                stage1_exact: 0,
                stage2_similarity: 0,
                stage3_ocr_success: 0,
                stage4_fallback: 0,
                not_found: 0,
            }),
    {
        FallbackMatchStats {
            total: 0,
            stage1_exact: 0,
            stage2_similarity: 0,
            stage3_ocr_success: 0,
            stage4_fallback: 0,
            not_found: 0,
        }
    }
}

impl FallbackMatchStats {
    /// Whether the counts are those of `matches`.
    pub open spec fn tallies(&self, matches: Seq<Option<PageNumberMatch>>) -> bool {
        &&& self.total == matches.len()
        &&& self.stage1_exact == count_outcome(matches, Some(MatchStage::ExactMatch))
        &&& self.stage2_similarity == count_outcome(matches, Some(MatchStage::SimilarityMatch))
        &&& self.stage3_ocr_success == count_outcome(matches, Some(MatchStage::OcrSuccessMatch))
        &&& self.stage4_fallback == count_outcome(matches, Some(MatchStage::FallbackMatch))
        &&& self.not_found == count_outcome(matches, None)
    }

    /// The part of the pages that the first two stages matched.
    pub open spec fn spec_high_confidence_rate(&self) -> u64 {
        rate_of(self.stage1_exact + self.stage2_similarity, self.total as int) as u64
    }

    /// The part of the pages that have a match.
    pub open spec fn spec_detection_rate(&self) -> u64 {
        rate_of(self.total - self.not_found, self.total as int) as u64
    }

    /// Counts the outcomes of a batch.
    pub fn from_matches(matches: &[Option<PageNumberMatch>]) -> (stats: Self)
        ensures
            stats.tallies(matches@),
            stats.stage1_exact + stats.stage2_similarity + stats.stage3_ocr_success
                + stats.stage4_fallback + stats.not_found == stats.total,
    {
        let mut stats = FallbackMatchStats::default();
        let n: usize = matches.len();
        let mut i: usize = 0;
        assert(matches@.take(0) =~= Seq::<Option<PageNumberMatch>>::empty());
        while i < n
            invariant
                i <= n == matches.len(),
                stats.tallies(matches@.take(i as int)),
                stats.stage1_exact + stats.stage2_similarity + stats.stage3_ocr_success
                    + stats.stage4_fallback + stats.not_found == i,
            decreases n - i,
        {
            proof {
                let longer = matches@.take(i as int + 1);
                assert(longer.drop_last() =~= matches@.take(i as int));
                assert(longer.last() == matches@[i as int]);
            }
            match &matches[i] {
                Some(found) => match found.stage {
                    MatchStage::ExactMatch => stats.stage1_exact += 1,
                    MatchStage::SimilarityMatch => stats.stage2_similarity += 1,
                    MatchStage::OcrSuccessMatch => stats.stage3_ocr_success += 1,
                    MatchStage::FallbackMatch => stats.stage4_fallback += 1,
                },
                None => stats.not_found += 1,
            }
            stats.total += 1;
            i += 1;
        }
        assert(matches@.take(n as int) =~= matches@);
        stats
    }

    /// The part of the pages that the first two stages matched, in
    /// millionths; 0 for no pages.
    #[verifier::when_used_as_spec(spec_high_confidence_rate)]
    pub fn high_confidence_rate(&self) -> (r: u64)
        ensures
            r == self.spec_high_confidence_rate(),
    {
        rate(self.stage1_exact as u128 + self.stage2_similarity as u128, self.total)
    }

    /// The part of the pages that have a match, in millionths; 0 for no
    /// pages.
    #[verifier::when_used_as_spec(spec_detection_rate)]
    pub fn detection_rate(&self) -> (r: u64)
        ensures
            r == self.spec_detection_rate(),
    {
        if self.not_found >= self.total {
            0
        } else {
            rate((self.total - self.not_found) as u128, self.total)
        }
    }
}

} // verus!
