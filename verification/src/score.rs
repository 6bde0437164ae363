//! Accuracy and score, as exact fractions of the totals.

use vstd::prelude::*;

verus! {

/// The score of a play in which every note is perfect.
pub const FULL_SCORE: u32 = 1_000_000;

/// A fraction of two whole numbers; the denominator is not zero.
#[derive(Clone, Copy, Debug, PartialEq, Eq, Structural)]
pub struct Ratio {
    pub num: u64,
    pub den: u64,
}

/// The accuracy of a play of `total` notes of which `perfect` were perfect and
/// `good` were good: a perfect note counts in full and a good one for 65
/// hundredths. A play of no notes is accurate in full.
pub open spec fn accuracy_of(perfect: int, good: int, total: int) -> Ratio {
    if total == 0 {
        Ratio { num: 1, den: 1 }
    } else {
        Ratio { num: (20 * perfect + 13 * good) as u64, den: (20 * total) as u64 }
    }
}

/// `total` times the score that is owed before rounding: nine tenths of the full
/// score for accuracy, one tenth for the longest combo.
pub open spec fn weighted(perfect: int, good: int, max_combo: int) -> int {
    900_000 * perfect + 585_000 * good + 100_000 * max_combo
}

/// The score of a play: the full score if every note is perfect, else the
/// weighted sum over the number of notes, rounded to the nearest whole number
/// and half a point upward.
pub open spec fn score_of(perfect: int, good: int, max_combo: int, total: int) -> int {
    if perfect == total {
        FULL_SCORE as int
    } else {
        (2 * weighted(perfect, good, max_combo) + total) / (2 * total)
    }
}

/// Number of time differences that are early: below zero.
pub open spec fn count_early(diffs: Seq<i64>) -> nat
    decreases diffs.len(),
{
    if diffs.len() == 0 {
        0
    } else {
        count_early(diffs.drop_last()) + if diffs.last() < 0 { 1nat } else { 0nat }
    }
}

/// The score of a play lies between nothing and the full score.
pub proof fn lemma_score_bounds(perfect: int, good: int, max_combo: int, total: int)
    requires
        0 <= perfect,
        0 <= good,
        perfect + good <= total,
        0 <= max_combo <= perfect + good,
    ensures
        0 <= score_of(perfect, good, max_combo, total) <= FULL_SCORE,
{
    if perfect != total {
        let w = weighted(perfect, good, max_combo);
        assert(0 <= w <= 1_000_000 * total);
        assert((2 * w + total) / (2 * total) <= 1_000_000) by (nonlinear_arith)
            requires
                0 <= w <= 1_000_000 * total,
                total > 0,
        ;
        assert((2 * w + total) / (2 * total) >= 0) by (nonlinear_arith)
            requires
                0 <= w,
                total > 0,
        ;
    }
}

/// A play that is not perfect throughout has the full score exactly when its
/// weighted sum is within half a point of it.
pub proof fn lemma_full_score(perfect: int, good: int, max_combo: int, total: int)
    requires
        0 <= perfect,
        0 <= good,
        perfect + good <= total,
        0 <= max_combo <= perfect + good,
    ensures
        score_of(perfect, good, max_combo, total) == FULL_SCORE <==> perfect == total || 2
            * weighted(perfect, good, max_combo) >= 1_999_999 * total,
{
    if perfect != total {
        let w = weighted(perfect, good, max_combo);
        assert(0 <= w <= 1_000_000 * total);
        assert(((2 * w + total) / (2 * total) == 1_000_000) <==> 2 * w >= 1_999_999 * total)
            by (nonlinear_arith)
            requires
                0 <= w <= 1_000_000 * total,
                total > 0,
        ;
    }
}

/// In a play of fewer than 630 000 notes, the full score is the score of a play
/// that is perfect throughout, and of no other.
pub proof fn lemma_full_score_iff_all_perfect(perfect: int, good: int, max_combo: int, total: int)
    requires
        0 <= perfect,
        0 <= good,
        perfect + good <= total,
        0 <= max_combo <= perfect + good,
        total < 630_000,
    ensures
        score_of(perfect, good, max_combo, total) == FULL_SCORE <==> perfect == total,
{
    lemma_full_score(perfect, good, max_combo, total);
}

} // verus!
