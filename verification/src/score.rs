//! Scoring model: the numeric score is computed from two independent pools —
//! a flat per-note pool rewarding every hit, scaled down for goods, and a
//! combo pool rewarding the longest unbroken run — and the judge-line
//! highlight color is derived purely from the running tallies.

use vstd::prelude::*;
use vstd::arithmetic::div_mod::{lemma_div_is_ordered, lemma_div_multiples_vanish, lemma_div_pos_is_pos};
use vstd::arithmetic::mul::lemma_mul_nonnegative;
use crate::chart::NOTE_LIMIT;
use crate::judge::Judge;

verus! {

/// The fixed score ceiling a flawless full-combo session attains.
pub const TOTAL_SCORE: u64 = 1_000_000;

/// Share of the ceiling awarded per note hit, regardless of combo.
pub const FLAT_POOL: u64 = 900_000;

/// Share of the ceiling awarded in proportion to the best combo.
pub const COMBO_POOL: u64 = 100_000;

/// A good judgment earns this percentage of a perfect's flat contribution.
pub const GOOD_WEIGHT: u64 = 65;

/// The score for a session over `total` notes with the given tallies: each
/// perfect contributes `FLAT_POOL / total`, each good 65% of that, bads and
/// misses nothing; the combo pool scales with the best combo reached.
pub open spec fn score_of(perfect: int, good: int, max_combo: int, total: int) -> int {
    if total <= 0 {
        0
    } else {
        (FLAT_POOL * (100 * perfect + GOOD_WEIGHT * good)) / (100 * total) + (COMBO_POOL
            * max_combo) / total
    }
}

/// The score never exceeds the fixed ceiling.
pub proof fn lemma_score_ceiling(perfect: int, good: int, max_combo: int, total: int)
    requires
        perfect >= 0,
        good >= 0,
        perfect + good <= total,
        0 <= max_combo <= perfect + good,
    ensures
        0 <= score_of(perfect, good, max_combo, total) <= TOTAL_SCORE,
{
    if total > 0 {
        let w = (100 * perfect + GOOD_WEIGHT * good) as int;
        let flat = (FLAT_POOL * w) as int;
        assert(0 <= w <= 100 * total) by (nonlinear_arith)
            requires
                perfect >= 0,
                good >= 0,
                perfect + good <= total,
                w == 100 * perfect + (GOOD_WEIGHT as int) * good,
                (GOOD_WEIGHT as int) == 65,
        ;
        lemma_mul_nonnegative(FLAT_POOL as int, w);
        lemma_div_pos_is_pos(flat, 100 * total);
        assert(flat <= (100 * total) * FLAT_POOL) by (nonlinear_arith)
            requires
                0 <= w <= 100 * total,
                flat == (FLAT_POOL as int) * w,
                (FLAT_POOL as int) == 900_000,
        ;
        lemma_div_is_ordered(flat, (100 * total) * FLAT_POOL, 100 * total);
        lemma_div_multiples_vanish(FLAT_POOL as int, 100 * total);
        let cp = (COMBO_POOL * max_combo) as int;
        lemma_mul_nonnegative(COMBO_POOL as int, max_combo);
        lemma_div_pos_is_pos(cp, total);
        assert(cp <= total * COMBO_POOL) by (nonlinear_arith)
            requires
                0 <= max_combo <= total,
                cp == (COMBO_POOL as int) * max_combo,
                (COMBO_POOL as int) == 100_000,
        ;
        lemma_div_is_ordered(cp, total * COMBO_POOL, total);
        lemma_div_multiples_vanish(COMBO_POOL as int, total);
    }
}

/// Judge-line highlight, derived from the tallies alone.
#[derive(Clone, Copy, PartialEq, Eq, Structural, Debug)]
pub enum LineColor {
    /// Every judged note so far was perfect.
    AllPerfect,
    /// No bad or miss yet, but at least one good.
    FullCombo,
    /// At least one bad or miss.
    Neutral,
}

impl Judge {
    /// The session's current score.
    pub fn score(&self) -> (r: u64)
        requires
            0 <= self@.perfect + self@.good <= self@.note_total,
            0 <= self@.max_combo <= self@.perfect + self@.good,
            self@.note_total <= NOTE_LIMIT,
        ensures
            r == score_of(self@.perfect, self@.good, self@.max_combo, self@.note_total),
            r <= TOTAL_SCORE,
    {
        proof {
            lemma_score_ceiling(self@.perfect, self@.good, self@.max_combo, self@.note_total);
        }
        if self.note_total == 0 {
            return 0;
        }
        let total = self.note_total as u64;
        let weighted = 100 * (self.perfect as u64) + GOOD_WEIGHT * (self.good as u64);
        let flat = (FLAT_POOL * weighted) / (100 * total);
        let combo_part = (COMBO_POOL * (self.max_combo as u64)) / total;
        flat + combo_part
    }

    /// The judge-line highlight color for the current tallies: the
    /// full-accuracy color while every judged note is perfect, the secondary
    /// color while only goods mar the run, neutral once any bad or miss
    /// exists. Recomputed from the tallies on every call, never cached.
    pub fn highlight_color(&self) -> (r: LineColor)
        ensures
            r == (if self@.bad + self@.miss != 0 {
                LineColor::Neutral
            } else if self@.good == 0 {
                LineColor::AllPerfect
            } else {
                LineColor::FullCombo
            }),
    {
        if self.bad != 0 || self.miss != 0 {
            LineColor::Neutral
        } else if self.good == 0 {
            LineColor::AllPerfect
        } else {
            LineColor::FullCombo
        }
    }
}

} // verus!
