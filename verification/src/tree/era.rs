//! Splits over eras: periods of the data that have to agree on a split, or of
//! which one validates what another found.

use crate::float::{F32, F64, F64_ZERO};
use crate::tree::split::{
    best_of, better, count_sum, if_valid, law_best_is_first_maximum, lemma_count_sum_grows, mask_view, masked, no_split,
    PartitionEval, SplitFinder, SplitInfo,
};
use crate::tree::split_laws::law_era_split_keeps_the_limits;
use vstd::prelude::*;

verus! {

/// What a cut comes to over all eras and in each of them.
#[derive(Debug)]
pub struct EraEval {
    /// The sides of the cut over all eras together; its gain is not read.
    pub aggregate: PartitionEval,
    /// The sides of the cut in each era, and its gain there.
    pub per_era: Vec<PartitionEval>,
    /// The average gain over the eras that have rows.
    pub average_gain: F32,
}

/// The sum over the first `eras` eras of the rows in their first `bins` bins.
pub open spec fn era_sum(era_counts: Seq<Vec<u32>>, eras: nat, bins: nat) -> nat
    decreases eras,
{
    if eras == 0 {
        0
    } else {
        era_sum(era_counts, (eras - 1) as nat, bins) + count_sum(era_counts[eras - 1]@, bins)
    }
}

/// How many of the first `n` eras have rows.
pub open spec fn eras_present(era_totals: Seq<u32>, n: nat) -> nat
    decreases n,
{
    if n == 0 {
        0
    } else {
        eras_present(era_totals, (n - 1) as nat) + if era_totals[n - 1] > 0 {
            1nat
        } else {
            0nat
        }
    }
}

/// Whether an era is there and has rows.
pub open spec fn era_has_rows(era_totals: Seq<u32>, era: int) -> bool {
    0 <= era < era_totals.len() && era_totals[era] > 0
}

/// In which direction a cut moves predictions: whether the right side's leaf
/// weight is at least the left side's.
pub open spec fn rises(eval: PartitionEval) -> bool {
    eval.left_weight.at_most(eval.right_weight)
}

/// Whether all eras that have rows agree on the direction of a cut.
pub open spec fn eras_agree(per_era: Seq<PartitionEval>, era_totals: Seq<u32>) -> bool {
    forall|a: int, b: int|
        #[trigger] era_has_rows(era_totals, a) && #[trigger] era_has_rows(era_totals, b) ==> rises(per_era[a]) == rises(
            per_era[b],
        )
}

/// Whether all eras that have rows agree on the direction of a cut.
pub fn has_directional_agreement(per_era: &[PartitionEval], era_totals: &[u32]) -> (agreed: bool)
    requires
        per_era@.len() == era_totals@.len(),
    ensures
        agreed == eras_agree(per_era@, era_totals@),
{
    let eras: usize = era_totals.len();
    let mut first: Option<usize> = None;
    let mut e: usize = 0;
    while e < eras
        invariant
            e <= eras == era_totals@.len() == per_era@.len(),
            first matches Some(at) ==> at < e && era_has_rows(era_totals@, at as int),
            forall|a: int|
                a < e && #[trigger] era_has_rows(era_totals@, a) ==> first is Some && rises(per_era@[a]) == rises(
                    per_era@[first->0 as int],
                ),
        decreases eras - e,
    {
        if era_totals[e] > 0 {
            assert(era_has_rows(era_totals@, e as int));
            match first {
                None => {
                    first = Some(e);
                },
                Some(at) => {
                    let here: bool = per_era[e].left_weight.le(per_era[e].right_weight);
                    let there: bool = per_era[at].left_weight.le(per_era[at].right_weight);
                    if here != there {
                        return false;
                    }
                },
            }
        }
        e = e + 1;
    }
    true
}

/// Whether every bin of every era is counted, and no era has more rows in its
/// bins than in all.
pub open spec fn era_counts_ok(era_counts: Seq<Vec<u32>>, era_totals: Seq<u32>) -> bool {
    &&& era_counts.len() == era_totals.len()
    &&& forall|e: int|
        0 <= e < era_counts.len() ==> (#[trigger] era_counts[e])@.len() >= 255 && count_sum(era_counts[e]@, 255)
            <= era_totals[e]
    &&& count_sum(era_totals, era_totals.len()) <= u32::MAX
}

/// The rows in the first bins of all eras are among all rows.
proof fn lemma_era_sum_bound(era_counts: Seq<Vec<u32>>, era_totals: Seq<u32>, eras: nat, bins: nat)
    requires
        era_counts_ok(era_counts, era_totals),
        eras <= era_counts.len(),
        bins <= 255,
    ensures
        era_sum(era_counts, eras, bins) <= count_sum(era_totals, eras),
    decreases eras,
{
    if eras > 0 {
        lemma_era_sum_bound(era_counts, era_totals, (eras - 1) as nat, bins);
        assert(era_counts[eras - 1]@.len() >= 255);
        lemma_count_sum_grows(era_counts[eras - 1]@, bins, 255);
    }
}

/// Adding one bin of every era.
proof fn lemma_era_sum_step(era_counts: Seq<Vec<u32>>, eras: nat, bins: nat, added: Seq<u32>)
    requires
        eras <= era_counts.len(),
        added.len() >= eras,
        forall|e: int| 0 <= e < eras ==> #[trigger] added[e] == era_counts[e]@[bins as int],
    ensures
        era_sum(era_counts, eras, bins + 1) == era_sum(era_counts, eras, bins) + count_sum(added, eras),
    decreases eras,
{
    if eras > 0 {
        lemma_era_sum_step(era_counts, (eras - 1) as nat, bins, added);
        assert(added[eras - 1] == era_counts[eras - 1]@[bins as int]);
    }
}

impl SplitFinder {
    /// The gain that a cut counts with, if the eras let it pass.
    ///
    /// With noise pruning, the gain in era 0 counts, if it is above the minimal
    /// gain and the gain in era 1 is above the pruning threshold; both eras
    /// have to have rows. Without, the average gain counts, if all eras agree.
    pub open spec fn era_gain(&self, era_totals: Seq<u32>, eval: EraEval) -> Option<F32> {
        if eras_present(era_totals, era_totals.len()) == 0 {
            None
        } else if self.noise_pruning {
            if !era_has_rows(era_totals, 0) || !era_has_rows(era_totals, 1) {
                None
            } else if eval.per_era@[0].gain.at_most(self.min_gain) || eval.per_era@[1].gain.at_most(
                self.noise_pruning_threshold,
            ) {
                None
            } else {
                Some(eval.per_era@[0].gain)
            }
        } else if eras_agree(eval.per_era@, era_totals) {
            Some(eval.average_gain)
        } else {
            None
        }
    }

    /// The split behind bin `bin` over all eras, with missing values on the
    /// left or on the right; `None` where the rules forbid it.
    pub open spec fn era_cut(
        &self,
        feature_idx: usize,
        era_counts: Seq<Vec<u32>>,
        era_totals: Seq<u32>,
        evals: Seq<EraEval>,
        bin: int,
        missing_left: bool,
    ) -> Option<SplitInfo> {
        let seen = era_sum(era_counts, era_counts.len(), (bin + 1) as nat);
        let left = if missing_left {
            seen as int
        } else {
            seen - era_sum(era_counts, era_counts.len(), 1)
        };
        let right = count_sum(era_totals, era_totals.len()) - left;
        let sides = evals[bin].aggregate;
        match self.era_gain(era_totals, evals[bin]) {
            None => None,
            Some(gain) => if (missing_left || self.use_missing_value_learning) && self.sides_large_enough(
                left as nat,
                right as nat,
                sides,
            ) && self.keeps_direction(feature_idx, sides.left_weight, sides.right_weight) {
                Some(
                    SplitInfo {
                        feature_idx,
                        bin_threshold: bin as u8,
                        split_value: F64 { bits: F64_ZERO },
                        gain,
                        left_gradient: sides.left_gradient,
                        left_hessian: sides.left_hessian,
                        left_count: left as u32,
                        right_gradient: sides.right_gradient,
                        right_hessian: sides.right_hessian,
                        right_count: right as u32,
                        default_left: missing_left,
                    },
                )
            } else {
                None
            },
        }
    }

    /// The cuts of a feature over all eras in the order in which they are
    /// tried: bin by bin, with missing values first on the left, then on the
    /// right.
    pub open spec fn era_cuts(
        &self,
        feature_idx: usize,
        era_counts: Seq<Vec<u32>>,
        era_totals: Seq<u32>,
        missing_left: Seq<EraEval>,
        missing_right: Seq<EraEval>,
    ) -> Seq<Option<SplitInfo>> {
        Seq::new(
            510,
            |i: int|
                if i % 2 == 0 {
                    self.era_cut(feature_idx, era_counts, era_totals, missing_left, i / 2, true)
                } else {
                    self.era_cut(feature_idx, era_counts, era_totals, missing_right, i / 2, false)
                },
        )
    }

    /// The best cut of a feature over all eras: the first of the largest gain.
    pub open spec fn era_split(
        &self,
        feature_idx: usize,
        era_counts: Seq<Vec<u32>>,
        era_totals: Seq<u32>,
        missing_left: Seq<EraEval>,
        missing_right: Seq<EraEval>,
    ) -> Option<SplitInfo> {
        if_valid(
            best_of(
                no_split(feature_idx),
                self.era_cuts(feature_idx, era_counts, era_totals, missing_left, missing_right),
                510,
            ),
        )
    }

    /// The gain that a cut counts with, if the eras let it pass.
    pub fn era_split_gain(&self, era_totals: &[u32], eval: &EraEval) -> (gain: Option<F32>)
        requires
            eval.per_era@.len() == era_totals@.len(),
        ensures
            gain == self.era_gain(era_totals@, *eval),
    {
        let eras: usize = era_totals.len();
        let mut present: usize = 0;
        let mut e: usize = 0;
        while e < eras
            invariant
                e <= eras == era_totals@.len(),
                present <= e,
                present == eras_present(era_totals@, e as nat),
            decreases eras - e,
        {
            if era_totals[e] > 0 {
                present = present + 1;
            }
            e = e + 1;
        }
        if present == 0 {
            return None;
        }
        if self.noise_pruning {
            if eras < 2 || era_totals[0] == 0 || era_totals[1] == 0 {
                return None;
            }
            let train: F32 = eval.per_era[0].gain;
            let validation: F32 = eval.per_era[1].gain;
            if train.le(self.min_gain) || validation.le(self.noise_pruning_threshold) {
                None
            } else {
                Some(train)
            }
        } else if has_directional_agreement(eval.per_era.as_slice(), era_totals) {
            Some(eval.average_gain)
        } else {
            None
        }
    }

    /// The better of a split and a cut over all eras, if the rules and the eras
    /// let the cut pass.
    fn better_era_cut(
        &self,
        best: SplitInfo,
        bin: u8,
        left: u32,
        right: u32,
        era_totals: &[u32],
        eval: &EraEval,
        default_left: bool,
    ) -> (split: SplitInfo)
        requires
            eval.per_era@.len() == era_totals@.len(),
        ensures
            split == (match self.era_gain(era_totals@, *eval) {
                Some(gain) => if best.gain.less(gain) && self.sides_large_enough(
                    left as nat,
                    right as nat,
                    eval.aggregate,
                ) && self.keeps_direction(
                    best.feature_idx,
                    eval.aggregate.left_weight,
                    eval.aggregate.right_weight,
                ) {
                    SplitInfo {
                        feature_idx: best.feature_idx,
                        bin_threshold: bin,
                        split_value: F64 { bits: F64_ZERO },
                        gain,
                        left_gradient: eval.aggregate.left_gradient,
                        left_hessian: eval.aggregate.left_hessian,
                        left_count: left,
                        right_gradient: eval.aggregate.right_gradient,
                        right_hessian: eval.aggregate.right_hessian,
                        right_count: right,
                        default_left,
                    }
                } else {
                    best
                },
                None => best,
            }),
    {
        if self.admits_sides(best.feature_idx, left, right, eval.aggregate) {
            if let Some(gain) = self.era_split_gain(era_totals, eval) {
                if best.gain.lt(gain) {
                    return SplitInfo {
                        feature_idx: best.feature_idx,
                        bin_threshold: bin,
                        split_value: F64 { bits: F64_ZERO },
                        gain,
                        left_gradient: eval.aggregate.left_gradient,
                        left_hessian: eval.aggregate.left_hessian,
                        left_count: left,
                        right_gradient: eval.aggregate.right_gradient,
                        right_hessian: eval.aggregate.right_hessian,
                        right_count: right,
                        default_left,
                    };
                }
            }
        }
        best
    }

    /// The best cut of one feature over all eras: the first of the largest
    /// gain among the cuts that the rules and the eras let pass. The last bin
    /// is no cut.
    ///
    /// `era_counts` holds the rows per era and bin, `era_totals` the rows per
    /// era. `missing_left` and `missing_right` hold what a cut behind each bin
    /// comes to with missing values (bin 0) on the left and on the right; the
    /// second is read only when missing values are tried on both sides.
    pub fn find_best_split_for_feature_era(
        &self,
        feature_idx: usize,
        era_counts: &[Vec<u32>],
        era_totals: &[u32],
        missing_left: &[EraEval],
        missing_right: &[EraEval],
    ) -> (split: Option<SplitInfo>)
        requires
            era_counts_ok(era_counts@, era_totals@),
            evals_ok(missing_left@, era_totals@),
            self.use_missing_value_learning ==> evals_ok(missing_right@, era_totals@),
        ensures
            split == self.era_split(feature_idx, era_counts@, era_totals@, missing_left@, missing_right@),
            split matches Some(found) ==> found.feature_idx == feature_idx,
            split matches Some(found) ==> {
                &&& found.left_count >= self.min_samples_leaf
                &&& found.right_count >= self.min_samples_leaf
                &&& !found.left_hessian.less(self.min_hessian_leaf)
                &&& !found.right_hessian.less(self.min_hessian_leaf)
            },
    {
        let eras: usize = era_totals.len();
        let total: u32 = sum_counts(era_totals);
        let ghost cuts = self.era_cuts(feature_idx, era_counts@, era_totals@, missing_left@, missing_right@);
        let mut best: SplitInfo = SplitInfo::default();
        best.feature_idx = feature_idx;
        let mut seen: u32 = 0;
        let mut bin: usize = 0;
        proof {
            lemma_era_sum_zero(era_counts@, eras as nat);
            lemma_era_sum_bound(era_counts@, era_totals@, eras as nat, 1);
        }
        let missing: u32 = advance(era_counts, era_totals, 0, 0);
        while bin < 255
            invariant
                bin <= 255,
                eras == era_totals@.len(),
                era_counts_ok(era_counts@, era_totals@),
                evals_ok(missing_left@, era_totals@),
                self.use_missing_value_learning ==> evals_ok(missing_right@, era_totals@),
                total == count_sum(era_totals@, eras as nat),
                seen == era_sum(era_counts@, eras as nat, bin as nat),
                missing == era_sum(era_counts@, eras as nat, 1),
                cuts == self.era_cuts(feature_idx, era_counts@, era_totals@, missing_left@, missing_right@),
                best.feature_idx == feature_idx,
                best == best_of(no_split(feature_idx), cuts, 2 * bin as nat),
            decreases 255 - bin,
        {
            let ghost even = 2 * bin as int;
            proof {
                lemma_era_sum_bound(era_counts@, era_totals@, eras as nat, (bin + 1) as nat);
                lemma_era_sum_grows(era_counts@, eras as nat, 1, (bin + 1) as nat);
            }
            seen = advance(era_counts, era_totals, bin, seen);
            assert(even % 2 == 0 && even / 2 == bin);
            assert((even + 1) % 2 == 1 && (even + 1) / 2 == bin);
            assert(cuts[even] == self.era_cut(
                feature_idx,
                era_counts@,
                era_totals@,
                missing_left@,
                bin as int,
                true,
            ));
            assert(cuts[even + 1] == self.era_cut(
                feature_idx,
                era_counts@,
                era_totals@,
                missing_right@,
                bin as int,
                false,
            ));
            assert(missing_left@[bin as int].per_era@.len() == era_totals@.len());
            best = self.better_era_cut(best, bin as u8, seen, total - seen, era_totals, &missing_left[bin], true);
            assert(best == better(best_of(no_split(feature_idx), cuts, even as nat), cuts[even]));
            assert(best == best_of(no_split(feature_idx), cuts, (even + 1) as nat));
            if self.use_missing_value_learning {
                let left: u32 = seen - missing;
                assert(missing_right@[bin as int].per_era@.len() == era_totals@.len());
                best = self.better_era_cut(best, bin as u8, left, total - left, era_totals, &missing_right[bin], false);
            }
            assert(best == better(best_of(no_split(feature_idx), cuts, (even + 1) as nat), cuts[even + 1]));
            assert(best == best_of(no_split(feature_idx), cuts, (even + 2) as nat));
            bin = bin + 1;
        }
        proof {
            law_era_split_keeps_the_limits(
                *self,
                feature_idx,
                era_counts@,
                era_totals@,
                missing_left@,
                missing_right@,
            );
        }
        if best.is_valid() {
            Some(best)
        } else {
            None
        }
    }
}

/// Whether there is a cut behind each bin but the last, evaluated in every era.
pub open spec fn evals_ok(evals: Seq<EraEval>, era_totals: Seq<u32>) -> bool {
    &&& evals.len() == 255
    &&& forall|b: int| 0 <= b < 255 ==> (#[trigger] evals[b]).per_era@.len() == era_totals.len()
}

/// More bins hold no fewer rows.
proof fn lemma_era_sum_grows(era_counts: Seq<Vec<u32>>, eras: nat, a: nat, b: nat)
    requires
        a <= b,
    ensures
        era_sum(era_counts, eras, a) <= era_sum(era_counts, eras, b),
    decreases eras,
{
    if eras > 0 {
        lemma_era_sum_grows(era_counts, (eras - 1) as nat, a, b);
        lemma_count_sum_grows(era_counts[eras - 1]@, a, b);
    }
}

/// Nothing is in no bins.
proof fn lemma_era_sum_zero(era_counts: Seq<Vec<u32>>, eras: nat)
    ensures
        era_sum(era_counts, eras, 0) == 0,
    decreases eras,
{
    if eras > 0 {
        lemma_era_sum_zero(era_counts, (eras - 1) as nat);
    }
}

fn sum_counts(counts: &[u32]) -> (sum: u32)
    requires
        count_sum(counts@, counts@.len()) <= u32::MAX,
    ensures
        sum == count_sum(counts@, counts@.len()),
{
    let n: usize = counts.len();
    let mut sum: u32 = 0;
    let mut i: usize = 0;
    while i < n
        invariant
            i <= n == counts@.len(),
            count_sum(counts@, n as nat) <= u32::MAX,
            sum == count_sum(counts@, i as nat),
        decreases n - i,
    {
        proof {
            lemma_count_sum_grows(counts@, (i + 1) as nat, n as nat);
        }
        sum = sum + counts[i];
        i = i + 1;
    }
    sum
}

/// Adds the rows in bin `bin` of every era.
fn advance(era_counts: &[Vec<u32>], era_totals: &[u32], bin: usize, before: u32) -> (after: u32)
    requires
        bin < 255,
        era_counts_ok(era_counts@, era_totals@),
        before == era_sum(era_counts@, era_counts@.len(), bin as nat),
    ensures
        after == era_sum(era_counts@, era_counts@.len(), (bin + 1) as nat),
{
    let eras: usize = era_counts.len();
    let ghost added = Seq::new(eras as nat, |e: int| era_counts@[e]@[bin as int]);
    let mut after: u32 = before;
    let mut e: usize = 0;
    proof {
        lemma_era_sum_step(era_counts@, eras as nat, bin as nat, added);
        lemma_era_sum_bound(era_counts@, era_totals@, eras as nat, (bin + 1) as nat);
    }
    while e < eras
        invariant
            bin < 255,
            e <= eras == era_counts@.len(),
            era_counts_ok(era_counts@, era_totals@),
            added == Seq::new(eras as nat, |e: int| era_counts@[e]@[bin as int]),
            before + count_sum(added, eras as nat) <= u32::MAX,
            after == before + count_sum(added, e as nat),
        decreases eras - e,
    {
        proof {
            lemma_count_sum_grows(added, (e + 1) as nat, eras as nat);
            assert(era_counts@[e as int]@.len() >= 255);
        }
        after = after + era_counts[e][bin];
        e = e + 1;
    }
    after
}

impl SplitFinder {
    /// Whether noise pruning has the two eras that it needs: one to find
    /// splits on and one to validate them, both with rows.
    pub open spec fn eras_usable(&self, num_eras: usize, era_totals: Seq<u32>) -> bool {
        self.noise_pruning ==> num_eras >= 2 && era_has_rows(era_totals, 0) && era_has_rows(era_totals, 1)
    }

    /// The best split of a node over eras: none where noise pruning lacks an
    /// era that it needs, else the first of the largest gain among the best
    /// splits of the features in the mask, if it gains at least the minimum.
    pub fn find_best_split_with_eras_and_features(
        &self,
        num_eras: usize,
        era_totals: &[u32],
        per_feature: &[Option<SplitInfo>],
        feature_mask: Option<&[usize]>,
    ) -> (split: Option<SplitInfo>)
        ensures
            split == (if self.eras_usable(num_eras, era_totals@) {
                self.chosen(masked(per_feature@, mask_view(feature_mask)))
            } else {
                None
            }),
    {
        if self.noise_pruning {
            if num_eras < 2 {
                return None;
            }
            let has_first: bool = era_totals.len() > 0 && era_totals[0] > 0;
            let has_second: bool = era_totals.len() > 1 && era_totals[1] > 0;
            if !has_first || !has_second {
                return None;
            }
        }
        self.find_best_split_with_features(per_feature, feature_mask)
    }

    /// The best split of a node over eras and all features.
    pub fn find_best_split_with_eras(
        &self,
        num_eras: usize,
        era_totals: &[u32],
        per_feature: &[Option<SplitInfo>],
    ) -> (split: Option<SplitInfo>)
        ensures
            split == (if self.eras_usable(num_eras, era_totals@) {
                self.chosen(per_feature@)
            } else {
                None
            }),
    {
        self.find_best_split_with_eras_and_features(num_eras, era_totals, per_feature, None)
    }
}

/// Noise pruning never lets a cut pass that does not gain more than the
/// threshold on the validation era and more than the minimum on the training
/// era, unless one of those gains is not a number.
pub proof fn law_noise_pruning_validates(
    finder: SplitFinder,
    feature_idx: usize,
    era_counts: Seq<Vec<u32>>,
    era_totals: Seq<u32>,
    evals: Seq<EraEval>,
    bin: int,
    missing_left: bool,
)
    requires
        finder.noise_pruning,
        finder.era_cut(feature_idx, era_counts, era_totals, evals, bin, missing_left) is Some,
        !finder.min_gain.nan(),
        !finder.noise_pruning_threshold.nan(),
    ensures
        ({
            let train = evals[bin].per_era@[0].gain;
            let validation = evals[bin].per_era@[1].gain;
            &&& era_has_rows(era_totals, 0)
            &&& era_has_rows(era_totals, 1)
            &&& train.nan() || finder.min_gain.less(train)
            &&& validation.nan() || finder.noise_pruning_threshold.less(validation)
            &&& finder.era_cut(feature_idx, era_counts, era_totals, evals, bin, missing_left)->0.gain == train
        }),
{
}

/// Without noise pruning, a cut passes only where all eras agree on its
/// direction.
pub proof fn law_eras_have_to_agree(
    finder: SplitFinder,
    feature_idx: usize,
    era_counts: Seq<Vec<u32>>,
    era_totals: Seq<u32>,
    evals: Seq<EraEval>,
    bin: int,
    missing_left: bool,
)
    requires
        !finder.noise_pruning,
        finder.era_cut(feature_idx, era_counts, era_totals, evals, bin, missing_left) is Some,
    ensures
        eras_agree(evals[bin].per_era@, era_totals),
        finder.era_cut(feature_idx, era_counts, era_totals, evals, bin, missing_left)->0.gain == evals[bin].average_gain,
{
}

/// Over eras too, missing values take the side that gains more: the best split
/// of a feature gains no less than any cut that passes, on either side.
pub proof fn law_eras_choose_the_better_side(
    finder: SplitFinder,
    feature_idx: usize,
    era_counts: Seq<Vec<u32>>,
    era_totals: Seq<u32>,
    missing_left: Seq<EraEval>,
    missing_right: Seq<EraEval>,
    bin: int,
)
    requires
        finder.use_missing_value_learning,
        0 <= bin < 255,
    ensures
        finder.era_split(feature_idx, era_counts, era_totals, missing_left, missing_right) matches Some(best) ==> {
            &&& finder.era_cut(feature_idx, era_counts, era_totals, missing_left, bin, true) matches Some(left)
                ==> !best.gain.less(left.gain)
            &&& finder.era_cut(feature_idx, era_counts, era_totals, missing_right, bin, false) matches Some(right)
                ==> !best.gain.less(right.gain)
        },
{
    let cuts = finder.era_cuts(feature_idx, era_counts, era_totals, missing_left, missing_right);
    law_best_is_first_maximum(no_split(feature_idx), cuts, 510);
    assert((2 * bin) % 2 == 0 && (2 * bin) / 2 == bin);
    assert((2 * bin + 1) % 2 == 1 && (2 * bin + 1) / 2 == bin);
    assert(cuts[2 * bin] == finder.era_cut(feature_idx, era_counts, era_totals, missing_left, bin, true));
    assert(cuts[2 * bin + 1] == finder.era_cut(feature_idx, era_counts, era_totals, missing_right, bin, false));
}

} // verus!
