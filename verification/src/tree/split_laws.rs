//! What a split that was found satisfies, in terms of the counts and sums that it
//! was found from.

use crate::float::F32;
use crate::seqs::{ascending_where, lemma_ascending_where};
use crate::tree::era::{era_counts_ok, era_has_rows, era_sum, eras_present, EraEval};
use crate::tree::grower::{default_grower, effective_mask, holds_all, usable_features, TreeGrower};
use crate::tree::split::{
    best_of, count_sum, law_best_is_first_maximum, lemma_count_sum_grows, masked, no_split, InteractionConstraints, KernelCandidate, MonotonicConstraint, PartitionEval, SplitFinder, SplitInfo,
};
use vstd::prelude::*;

verus! {

/// Counts add up bin by bin.
pub proof fn law_counts_add_up(counts: Seq<u32>, n: nat)
    requires
        n < counts.len(),
    ensures
        count_sum(counts, 0) == 0,
        count_sum(counts, n + 1) == count_sum(counts, n) + counts[n as int],
{
}

/// Counts over eras add up era by era.
pub proof fn law_era_counts_add_up(era_counts: Seq<Vec<u32>>, eras: nat, bins: nat)
    requires
        eras < era_counts.len(),
    ensures
        era_sum(era_counts, 0, bins) == 0,
        era_sum(era_counts, eras + 1, bins) == era_sum(era_counts, eras, bins) + count_sum(
            era_counts[eras as int]@,
            bins,
        ),
{
}

/// A split of a feature keeps to every limit of the finder. Both sides have at
/// least as many rows, and hessian sums that are not below what a leaf asks for.
/// The sides share out all rows, cut at a bin that holds some, with the missing
/// ones on the side that the split says, which is the left one unless the other
/// side is tried too. The sums and the gain are those computed for that cut, and
/// its leaf weights keep the direction of the feature.
pub proof fn law_scalar_split_keeps_the_limits(
    finder: SplitFinder,
    feature_idx: usize,
    counts: Seq<u32>,
    total: u32,
    missing_left: Seq<PartitionEval>,
    missing_right: Seq<PartitionEval>,
)
    requires
        counts.len() <= 256,
        count_sum(counts, counts.len()) <= total,
    ensures
        finder.scalar_split(feature_idx, counts, total, missing_left, missing_right) matches Some(split) ==> {
            let bin = split.bin_threshold as int;
            let eval = if split.default_left {
                missing_left[bin]
            } else {
                missing_right[bin]
            };
            let upto = count_sum(counts, (bin + 1) as nat);
            &&& split.feature_idx == feature_idx
            &&& split.left_count >= finder.min_samples_leaf
            &&& split.right_count >= finder.min_samples_leaf
            &&& !split.left_hessian.less(finder.min_hessian_leaf)
            &&& !split.right_hessian.less(finder.min_hessian_leaf)
            &&& split.left_count > 0
            &&& split.right_count > 0
            &&& split.left_count + split.right_count == total
            &&& bin < counts.len()
            &&& counts[bin] > 0
            &&& split.default_left || finder.use_missing_value_learning
            &&& split.default_left ==> split.left_count == upto
            &&& !split.default_left ==> split.left_count == upto - counts[0]
            &&& split.gain == eval.gain
            &&& split.left_gradient == eval.left_gradient
            &&& split.left_hessian == eval.left_hessian
            &&& split.right_gradient == eval.right_gradient
            &&& split.right_hessian == eval.right_hessian
            &&& split.split_value.bits == 0
            &&& !split.gain.nan()
            &&& split.gain.bits != 0xff80_0000
            &&& feature_idx < finder.monotonic_constraints@.len() ==> {
                &&& finder.monotonic_constraints@[feature_idx as int] == MonotonicConstraint::Increasing
                    ==> eval.left_weight.at_most(eval.right_weight)
                &&& finder.monotonic_constraints@[feature_idx as int] == MonotonicConstraint::Decreasing
                    ==> eval.right_weight.at_most(eval.left_weight)
            }
        },
{
    if finder.scalar_split(feature_idx, counts, total, missing_left, missing_right) is Some {
        let cuts = finder.cuts(feature_idx, counts, total, missing_left, missing_right);
        let split = finder.scalar_split(feature_idx, counts, total, missing_left, missing_right)->0;
        law_best_is_first_maximum(no_split(feature_idx), cuts, 2 * counts.len());
        let k = choose|k: int| 0 <= k < 2 * counts.len() && #[trigger] cuts[k] == Some(split);
        assert(cuts[k] == Some(split));
        let bin = k / 2;
        lemma_count_sum_grows(counts, (bin + 1) as nat, counts.len());
        lemma_count_sum_grows(counts, 1, (bin + 1) as nat);
        assert(count_sum(counts, 1) == counts[0]) by {
            reveal_with_fuel(count_sum, 2);
        }
    }
}

/// A cut of a feature that keeps to every limit and has a gain is never passed
/// over: a split is found, with at least that gain, and at an earlier bin, or at
/// the same one with the missing values on the left, unless its gain is larger.
pub proof fn law_scalar_split_passes_nothing_over(
    finder: SplitFinder,
    feature_idx: usize,
    counts: Seq<u32>,
    total: u32,
    missing_left: Seq<PartitionEval>,
    missing_right: Seq<PartitionEval>,
    bin: int,
    left_side: bool,
)
    requires
        counts.len() <= 256,
        count_sum(counts, counts.len()) <= total,
        finder.min_samples_leaf >= 1,
        0 <= bin < counts.len(),
        counts[bin] > 0,
        left_side || finder.use_missing_value_learning,
        ({
            let eval = if left_side {
                missing_left[bin]
            } else {
                missing_right[bin]
            };
            let left = count_sum(counts, (bin + 1) as nat) - if left_side {
                0
            } else {
                counts[0] as int
            };
            &&& left >= finder.min_samples_leaf
            &&& total - left >= finder.min_samples_leaf
            &&& !eval.left_hessian.less(finder.min_hessian_leaf)
            &&& !eval.right_hessian.less(finder.min_hessian_leaf)
            &&& feature_idx < finder.monotonic_constraints@.len() ==> {
                &&& finder.monotonic_constraints@[feature_idx as int] == MonotonicConstraint::Increasing
                    ==> eval.left_weight.at_most(eval.right_weight)
                &&& finder.monotonic_constraints@[feature_idx as int] == MonotonicConstraint::Decreasing
                    ==> eval.right_weight.at_most(eval.left_weight)
            }
            &&& !eval.gain.nan()
            &&& eval.gain.bits != 0xff80_0000
        }),
    ensures
        ({
            let gain = if left_side {
                missing_left[bin].gain
            } else {
                missing_right[bin].gain
            };
            let found = finder.scalar_split(feature_idx, counts, total, missing_left, missing_right);
            &&& found is Some
            &&& gain.at_most(found->0.gain)
            &&& gain.less(found->0.gain) || found->0.bin_threshold < bin || found->0.bin_threshold == bin && (
            found->0.default_left || !left_side)
        }),
{
    let cuts = finder.cuts(feature_idx, counts, total, missing_left, missing_right);
    let start = no_split(feature_idx);
    law_best_is_first_maximum(start, cuts, 2 * counts.len());
    let at = if left_side {
        2 * bin
    } else {
        2 * bin + 1
    };
    assert(at / 2 == bin && (at % 2 == 0) == left_side);
    assert(cuts[at] is Some);
    let gain = cuts[at]->0.gain;
    assert(start.gain.less(gain));
    let best = best_of(start, cuts, 2 * counts.len());
    assert(!best.gain.less(gain));
    assert(best != start);
    let k = choose|k: int|
        0 <= k < 2 * counts.len() && #[trigger] cuts[k] == Some(best) && start.gain.less(best.gain) && forall|i: int|
            0 <= i < k && (#[trigger] cuts[i]) is Some && !cuts[i]->0.gain.nan() ==> cuts[i]->0.gain.less(best.gain);
    assert(cuts[k] == Some(best));
    let place = k / 2;
    lemma_count_sum_grows(counts, (place + 1) as nat, counts.len());
    lemma_count_sum_grows(counts, 1, (place + 1) as nat);
    assert(count_sum(counts, 1) == counts[0]) by {
        reveal_with_fuel(count_sum, 2);
    }
    assert(best.valid());
}

/// A split over eras keeps to every limit of the finder. Both sides have at least
/// as many rows of all eras together, and hessian sums that are not below what a
/// leaf asks for, and the leaf weights keep the direction of the feature. With
/// noise pruning its gain is that of the first era, which together with the gain
/// of the second one passes the thresholds; without it, all eras with rows have
/// the same direction, and the gain is the mean one.
pub proof fn law_era_split_keeps_the_limits(
    finder: SplitFinder,
    feature_idx: usize,
    era_counts: Seq<Vec<u32>>,
    era_totals: Seq<u32>,
    missing_left: Seq<EraEval>,
    missing_right: Seq<EraEval>,
)
    requires
        era_counts_ok(era_counts, era_totals),
    ensures
        finder.era_split(feature_idx, era_counts, era_totals, missing_left, missing_right) matches Some(split) ==> {
            let bin = split.bin_threshold as int;
            let eval = if split.default_left {
                missing_left[bin]
            } else {
                missing_right[bin]
            };
            let upto = era_sum(era_counts, era_counts.len(), (bin + 1) as nat);
            &&& split.feature_idx == feature_idx
            &&& split.left_count >= finder.min_samples_leaf
            &&& split.right_count >= finder.min_samples_leaf
            &&& !split.left_hessian.less(finder.min_hessian_leaf)
            &&& !split.right_hessian.less(finder.min_hessian_leaf)
            &&& split.left_count > 0
            &&& split.right_count > 0
            &&& split.left_count + split.right_count == count_sum(era_totals, era_totals.len())
            &&& bin < 255
            &&& split.default_left || finder.use_missing_value_learning
            &&& split.default_left ==> split.left_count == upto
            &&& !split.default_left ==> split.left_count == upto - era_sum(era_counts, era_counts.len(), 1)
            &&& split.left_gradient == eval.aggregate.left_gradient
            &&& split.left_hessian == eval.aggregate.left_hessian
            &&& split.right_gradient == eval.aggregate.right_gradient
            &&& split.right_hessian == eval.aggregate.right_hessian
            &&& !split.gain.nan()
            &&& split.gain.bits != 0xff80_0000
            &&& feature_idx < finder.monotonic_constraints@.len() ==> {
                &&& finder.monotonic_constraints@[feature_idx as int] == MonotonicConstraint::Increasing
                    ==> eval.aggregate.left_weight.at_most(eval.aggregate.right_weight)
                &&& finder.monotonic_constraints@[feature_idx as int] == MonotonicConstraint::Decreasing
                    ==> eval.aggregate.right_weight.at_most(eval.aggregate.left_weight)
            }
            &&& exists|e: int| 0 <= e < era_totals.len() && #[trigger] era_totals[e] > 0
            &&& finder.noise_pruning ==> {
                &&& era_totals.len() >= 2 && era_totals[0] > 0 && era_totals[1] > 0
                &&& split.gain == eval.per_era@[0].gain
                &&& !split.gain.at_most(finder.min_gain)
                &&& !eval.per_era@[1].gain.at_most(finder.noise_pruning_threshold)
            }
            &&& !finder.noise_pruning ==> {
                &&& split.gain == eval.average_gain
                &&& forall|a: int, b: int|
                    0 <= a < era_totals.len() && 0 <= b < era_totals.len() && #[trigger] era_totals[a] > 0
                        && #[trigger] era_totals[b] > 0 ==> (eval.per_era@[a].left_weight.at_most(
                        eval.per_era@[a].right_weight,
                    ) <==> eval.per_era@[b].left_weight.at_most(eval.per_era@[b].right_weight))
            }
        },
{
    if finder.era_split(feature_idx, era_counts, era_totals, missing_left, missing_right) is Some {
        let cuts = finder.era_cuts(feature_idx, era_counts, era_totals, missing_left, missing_right);
        let split = finder.era_split(feature_idx, era_counts, era_totals, missing_left, missing_right)->0;
        law_best_is_first_maximum(no_split(feature_idx), cuts, 510);
        let k = choose|k: int| 0 <= k < 510 && #[trigger] cuts[k] == Some(split);
        assert(cuts[k] == Some(split));
        let bin = k / 2;
        lemma_era_sum_grows(era_counts, era_totals, era_counts.len(), (bin + 1) as nat);
        lemma_some_era(era_totals, era_totals.len());
        if !finder.noise_pruning {
            let eval = if split.default_left {
                missing_left[bin]
            } else {
                missing_right[bin]
            };
            assert forall|a: int, b: int|
                0 <= a < era_totals.len() && 0 <= b < era_totals.len() && #[trigger] era_totals[a] > 0
                    && #[trigger] era_totals[b] > 0 implies (eval.per_era@[a].left_weight.at_most(
                eval.per_era@[a].right_weight,
            ) <==> eval.per_era@[b].left_weight.at_most(eval.per_era@[b].right_weight)) by {
                assert(era_has_rows(era_totals, a));
                assert(era_has_rows(era_totals, b));
            }
        }
    }
}

/// All eras together hold no more rows in some bins than they have, and no fewer
/// than in the first bin.
proof fn lemma_era_sum_grows(era_counts: Seq<Vec<u32>>, era_totals: Seq<u32>, eras: nat, bins: nat)
    requires
        era_counts_ok(era_counts, era_totals),
        eras <= era_counts.len(),
        1 <= bins <= 255,
    ensures
        era_sum(era_counts, eras, 1) <= era_sum(era_counts, eras, bins) <= count_sum(era_totals, eras),
    decreases eras,
{
    if eras > 0 {
        lemma_era_sum_grows(era_counts, era_totals, (eras - 1) as nat, bins);
        let counts = era_counts[eras - 1]@;
        lemma_count_sum_grows(counts, 1, bins);
        lemma_count_sum_grows(counts, bins, 255);
    }
}

/// Where eras are present, one has rows.
proof fn lemma_some_era(era_totals: Seq<u32>, n: nat)
    requires
        n <= era_totals.len(),
    ensures
        eras_present(era_totals, n) > 0 <==> exists|e: int| 0 <= e < n && #[trigger] era_totals[e] > 0,
    decreases n,
{
    if n > 0 {
        lemma_some_era(era_totals, (n - 1) as nat);
        if eras_present(era_totals, n) > 0 && !(era_totals[n - 1] > 0) {
            let e = choose|e: int| 0 <= e < n - 1 && #[trigger] era_totals[e] > 0;
            assert(era_totals[e] > 0);
        }
    }
}

/// A cut over eras that keeps to every limit and has a gain is never passed over.
pub proof fn law_era_split_passes_nothing_over(
    finder: SplitFinder,
    feature_idx: usize,
    era_counts: Seq<Vec<u32>>,
    era_totals: Seq<u32>,
    missing_left: Seq<EraEval>,
    missing_right: Seq<EraEval>,
    bin: int,
    left_side: bool,
)
    requires
        era_counts_ok(era_counts, era_totals),
        finder.min_samples_leaf >= 1,
        0 <= bin < 255,
        left_side || finder.use_missing_value_learning,
        exists|e: int| 0 <= e < era_totals.len() && #[trigger] era_totals[e] > 0,
        ({
            let eval = if left_side {
                missing_left[bin]
            } else {
                missing_right[bin]
            };
            let left = era_sum(era_counts, era_counts.len(), (bin + 1) as nat) - if left_side {
                0
            } else {
                era_sum(era_counts, era_counts.len(), 1) as int
            };
            &&& left >= finder.min_samples_leaf
            &&& count_sum(era_totals, era_totals.len()) - left >= finder.min_samples_leaf
            &&& !eval.aggregate.left_hessian.less(finder.min_hessian_leaf)
            &&& !eval.aggregate.right_hessian.less(finder.min_hessian_leaf)
            &&& feature_idx < finder.monotonic_constraints@.len() ==> {
                &&& finder.monotonic_constraints@[feature_idx as int] == MonotonicConstraint::Increasing
                    ==> eval.aggregate.left_weight.at_most(eval.aggregate.right_weight)
                &&& finder.monotonic_constraints@[feature_idx as int] == MonotonicConstraint::Decreasing
                    ==> eval.aggregate.right_weight.at_most(eval.aggregate.left_weight)
            }
            &&& finder.noise_pruning ==> {
                &&& era_totals.len() >= 2 && era_totals[0] > 0 && era_totals[1] > 0
                &&& finder.min_gain.less(eval.per_era@[0].gain)
                &&& finder.noise_pruning_threshold.less(eval.per_era@[1].gain)
                &&& eval.per_era@[0].gain.bits != 0xff80_0000
            }
            &&& !finder.noise_pruning ==> {
                &&& forall|a: int, b: int|
                    0 <= a < era_totals.len() && 0 <= b < era_totals.len() && #[trigger] era_totals[a] > 0
                        && #[trigger] era_totals[b] > 0 ==> (eval.per_era@[a].left_weight.at_most(
                        eval.per_era@[a].right_weight,
                    ) <==> eval.per_era@[b].left_weight.at_most(eval.per_era@[b].right_weight))
                &&& !eval.average_gain.nan()
                &&& eval.average_gain.bits != 0xff80_0000
            }
        }),
    ensures
        ({
            let eval = if left_side {
                missing_left[bin]
            } else {
                missing_right[bin]
            };
            let gain = if finder.noise_pruning {
                eval.per_era@[0].gain
            } else {
                eval.average_gain
            };
            let found = finder.era_split(feature_idx, era_counts, era_totals, missing_left, missing_right);
            &&& found is Some
            &&& gain.at_most(found->0.gain)
            &&& gain.less(found->0.gain) || found->0.bin_threshold < bin || found->0.bin_threshold == bin && (
            found->0.default_left || !left_side)
        }),
{
    let cuts = finder.era_cuts(feature_idx, era_counts, era_totals, missing_left, missing_right);
    let start = no_split(feature_idx);
    law_best_is_first_maximum(start, cuts, 510);
    let at = if left_side {
        2 * bin
    } else {
        2 * bin + 1
    };
    assert(at / 2 == bin && (at % 2 == 0) == left_side);
    lemma_some_era(era_totals, era_totals.len());
    let eval = if left_side {
        missing_left[bin]
    } else {
        missing_right[bin]
    };
    assert(finder.era_gain(era_totals, eval) == Some(
        if finder.noise_pruning {
            eval.per_era@[0].gain
        } else {
            eval.average_gain
        },
    ));
    assert(cuts[at] is Some);
    let gain = cuts[at]->0.gain;
    assert(start.gain.less(gain));
    let best = best_of(start, cuts, 510);
    assert(!best.gain.less(gain));
    let k = choose|k: int|
        0 <= k < 510 && #[trigger] cuts[k] == Some(best) && start.gain.less(best.gain) && forall|i: int|
            0 <= i < k && (#[trigger] cuts[i]) is Some && !cuts[i]->0.gain.nan() ==> cuts[i]->0.gain.less(best.gain);
    assert(cuts[k] == Some(best));
    lemma_era_sum_grows(era_counts, era_totals, era_counts.len(), (k / 2 + 1) as nat);
    assert(best.valid());
}

/// The split over all features is the first one with the largest gain: no feature
/// that may be used offers a larger gain, an earlier one offers less, and the
/// smallest gain that is asked for is reached.
pub proof fn law_chosen_split_has_the_largest_gain(
    finder: SplitFinder,
    per_feature: Seq<Option<SplitInfo>>,
    mask: Seq<usize>,
    i: int,
)
    requires
        0 <= i < mask.len(),
        mask[i] < per_feature.len(),
        per_feature[mask[i] as int] is Some,
        finder.chosen(masked(per_feature, Some(mask))) is Some,
    ensures
        ({
            let split = finder.chosen(masked(per_feature, Some(mask)))->0;
            let other = per_feature[mask[i] as int]->0;
            &&& !split.gain.less(other.gain)
            &&& !split.gain.less(finder.min_gain)
            &&& !split.gain.nan() && split.gain.bits != 0xff80_0000
            &&& split.left_count > 0 && split.right_count > 0
            &&& exists|j: int|
                {
                    &&& 0 <= j < mask.len()
                    &&& #[trigger] mask[j] < per_feature.len()
                    &&& per_feature[mask[j] as int] == Some(split)
                    &&& i < j && !other.gain.nan() ==> other.gain.less(split.gain)
                }
        }),
{
    let candidates = masked(per_feature, Some(mask));
    let split = finder.chosen(candidates)->0;
    law_best_is_first_maximum(no_split(0), candidates, candidates.len());
    assert(candidates[i] == per_feature[mask[i] as int]);
    let k = choose|k: int|
        0 <= k < candidates.len() && #[trigger] candidates[k] == Some(split) && no_split(0).gain.less(split.gain)
            && forall|j: int|
            0 <= j < k && (#[trigger] candidates[j]) is Some && !candidates[j]->0.gain.nan()
                ==> candidates[j]->0.gain.less(split.gain);
    assert(candidates[k] == Some(split));
    assert(mask[k] < per_feature.len());
}

/// No split over all features means that none was worth it: where everything that
/// was found has rows on both sides, whatever may be used of it has a gain below
/// the smallest that is asked for, or none that can be told.
pub proof fn law_no_split_means_no_gain(
    finder: SplitFinder,
    per_feature: Seq<Option<SplitInfo>>,
    mask: Seq<usize>,
    i: int,
)
    requires
        0 <= i < mask.len(),
        mask[i] < per_feature.len(),
        per_feature[mask[i] as int] is Some,
        forall|f: int|
            0 <= f < per_feature.len() && (#[trigger] per_feature[f]) is Some ==> per_feature[f]->0.left_count > 0
                && per_feature[f]->0.right_count > 0,
        finder.chosen(masked(per_feature, Some(mask))) is None,
    ensures
        !finder.min_gain.at_most(per_feature[mask[i] as int]->0.gain) || per_feature[mask[i] as int]->0.gain.bits
            == 0xff80_0000,
{
    let candidates = masked(per_feature, Some(mask));
    let best = best_of(no_split(0), candidates, candidates.len());
    law_best_is_first_maximum(no_split(0), candidates, candidates.len());
    assert(candidates[i] == per_feature[mask[i] as int]);
    let gain = candidates[i]->0.gain;
    if finder.min_gain.at_most(gain) && gain.bits != 0xff80_0000 {
        assert(!best.gain.less(gain));
        if best == no_split(0) {
            assert(best.gain.less(gain));
        } else {
            let k = choose|k: int| 0 <= k < candidates.len() && #[trigger] candidates[k] == Some(best);
            assert(candidates[k] == Some(best));
            let f = mask[k] as int;
            assert(per_feature[f] == Some(best));
        }
    }
}

/// Without a list of features every feature may be used.
pub proof fn law_no_mask_lets_every_feature_in(per_feature: Seq<Option<SplitInfo>>)
    ensures
        masked(per_feature, None) == per_feature,
{
}

/// A list of features picks, in its order, what was found for each of them, and
/// nothing for a feature that there is not.
pub proof fn law_mask_picks_its_features(per_feature: Seq<Option<SplitInfo>>, mask: Seq<usize>, i: int)
    requires
        0 <= i < mask.len(),
    ensures
        masked(per_feature, Some(mask)).len() == mask.len(),
        mask[i] < per_feature.len() ==> masked(per_feature, Some(mask))[i] == per_feature[mask[i] as int],
        mask[i] >= per_feature.len() ==> masked(per_feature, Some(mask))[i] is None,
{
}

/// What the kernel found is a split as it stands, with missing values on the
/// left, unless its gain is below the smallest that is asked for.
pub proof fn law_kernel_split_is_taken_over(finder: SplitFinder, feature_idx: usize, candidate: Option<KernelCandidate>)
    ensures
        finder.vectorised_split(feature_idx, candidate) is None <==> candidate is None || candidate->0.gain.less(
            finder.min_gain,
        ),
        finder.vectorised_split(feature_idx, candidate) matches Some(split) ==> {
            &&& split.feature_idx == feature_idx
            &&& split.bin_threshold == candidate->0.bin_threshold
            &&& split.gain == candidate->0.gain
            &&& split.left_gradient == candidate->0.left_gradient
            &&& split.left_hessian == candidate->0.left_hessian
            &&& split.left_count == candidate->0.left_count
            &&& split.right_gradient == candidate->0.right_gradient
            &&& split.right_hessian == candidate->0.right_hessian
            &&& split.right_count == candidate->0.right_count
            &&& split.default_left
        },
{
}

/// The kernel, which knows neither entropy, direction nor missing values, is used
/// exactly where none of them matters.
pub proof fn law_kernel_is_used_where_it_decides_alike(finder: SplitFinder, feature_idx: usize)
    ensures
        finder.vectorised(feature_idx) ==> {
            &&& finder.entropy_weight.bits == 0 || finder.entropy_weight.bits == 0x8000_0000
            &&& !finder.use_missing_value_learning
            &&& feature_idx < finder.monotonic_constraints@.len() ==> finder.monotonic_constraints@[feature_idx as int]
                == MonotonicConstraint::Unconstrained
        },
        finder.use_missing_value_learning ==> !finder.vectorised(feature_idx),
        !finder.use_missing_value_learning && finder.entropy_weight.bits == 0 && feature_idx
            >= finder.monotonic_constraints@.len() ==> finder.vectorised(feature_idx),
        !finder.use_missing_value_learning && finder.entropy_weight.bits == 0 && feature_idx
            < finder.monotonic_constraints@.len() && finder.monotonic_constraints@[feature_idx as int]
            == MonotonicConstraint::Unconstrained ==> finder.vectorised(feature_idx),
{
}

/// Noise pruning asks for two eras with rows; nothing else is asked of eras.
pub proof fn law_noise_pruning_needs_two_eras(finder: SplitFinder, num_eras: usize, era_totals: Seq<u32>)
    ensures
        !finder.noise_pruning ==> finder.eras_usable(num_eras, era_totals),
        finder.noise_pruning ==> (finder.eras_usable(num_eras, era_totals) <==> num_eras >= 2 && era_totals.len() >= 2
            && era_totals[0] > 0 && era_totals[1] > 0),
{
}

/// Which features may be used below a path, told by the groups alone: those that
/// no group lists, all of them while no feature of the path is in a group, and
/// those that some group lists together with a feature of the path. Indices past
/// the known features count as listed nowhere.
pub proof fn law_groups_decide_what_is_allowed(
    constraints: InteractionConstraints,
    ancestors: Seq<usize>,
    feature: usize,
)
    ensures
        ({
            let groups = constraints.group_list();
            let known = constraints.known_features();
            constraints.allows(ancestors, feature) <==> {
                ||| feature >= known
                ||| forall|g: int| 0 <= g < groups.len() ==> !(#[trigger] groups[g]).contains(feature)
                ||| forall|g: int, i: int|
                    0 <= g < groups.len() && 0 <= i < ancestors.len() && #[trigger] ancestors[i] < known ==> !(
                    #[trigger] groups[g]).contains(ancestors[i])
                ||| exists|g: int, i: int|
                    0 <= g < groups.len() && 0 <= i < ancestors.len() && #[trigger] ancestors[i] < known && (
                    #[trigger] groups[g]).contains(feature) && groups[g].contains(ancestors[i])
            }
        }),
{
    let groups = constraints.group_list();
    let known = constraints.known_features();
    assert forall|g: int, f: usize| 0 <= g < groups.len() && f < known && (#[trigger] groups[g]).contains(
        f,
    ) implies #[trigger] constraints.in_group(g, f) by {}
    if constraints.has_group(feature) {
        let g = choose|g: int| #[trigger] constraints.in_group(g, feature);
        assert(groups[g].contains(feature));
    } else if feature < known {
        assert forall|g: int| 0 <= g < groups.len() implies !(#[trigger] groups[g]).contains(feature) by {
            if groups[g].contains(feature) {
                assert(constraints.in_group(g, feature));
            }
        }
    }
    if forall|i: int| 0 <= i < ancestors.len() ==> !constraints.has_group(#[trigger] ancestors[i]) {
        assert forall|g: int, i: int|
            0 <= g < groups.len() && 0 <= i < ancestors.len() && #[trigger] ancestors[i] < known implies !(
        #[trigger] groups[g]).contains(ancestors[i]) by {
            if groups[g].contains(ancestors[i]) {
                assert(constraints.in_group(g, ancestors[i]));
            }
        }
    }
    if exists|i: int| 0 <= i < ancestors.len() && constraints.shares_group(feature, #[trigger] ancestors[i]) {
        let i = choose|i: int| 0 <= i < ancestors.len() && constraints.shares_group(feature, #[trigger] ancestors[i]);
        let g = choose|g: int|
            #[trigger] constraints.in_group(g, feature) && constraints.in_group(g, ancestors[i]);
        assert(groups[g].contains(feature) && groups[g].contains(ancestors[i]));
        assert(ancestors[i] < known);
    }
    if feature < known && exists|g: int, i: int|
        0 <= g < groups.len() && 0 <= i < ancestors.len() && #[trigger] ancestors[i] < known && (
        #[trigger] groups[g]).contains(feature) && groups[g].contains(ancestors[i]) {
        let (g, i) = choose|g: int, i: int|
            0 <= g < groups.len() && 0 <= i < ancestors.len() && #[trigger] ancestors[i] < known && (
            #[trigger] groups[g]).contains(feature) && groups[g].contains(ancestors[i]);
        assert(constraints.in_group(g, feature) && constraints.in_group(g, ancestors[i]));
        assert(constraints.shares_group(feature, ancestors[i]));
    }
    if forall|g: int, i: int|
        0 <= g < groups.len() && 0 <= i < ancestors.len() && #[trigger] ancestors[i] < known ==> !(
        #[trigger] groups[g]).contains(ancestors[i]) {
        assert forall|i: int| 0 <= i < ancestors.len() implies !constraints.has_group(#[trigger] ancestors[i]) by {
            if constraints.has_group(ancestors[i]) {
                let g = choose|g: int| #[trigger] constraints.in_group(g, ancestors[i]);
                assert(groups[g].contains(ancestors[i]));
            }
        }
    }
    if forall|g: int| 0 <= g < groups.len() ==> !(#[trigger] groups[g]).contains(feature) {
        if constraints.has_group(feature) {
            let g = choose|g: int| #[trigger] constraints.in_group(g, feature);
            assert(groups[g].contains(feature));
        }
    }
}

/// Which features a node may use: those of the sample that its groups allow; all
/// that its groups allow where the sample has none of them, or where there is no
/// sample; the sample itself where there are no groups; and every feature where
/// nothing is ruled out, which is then left unsaid.
pub proof fn law_mask_lists_what_may_be_used(
    constraints: InteractionConstraints,
    ancestors: Seq<usize>,
    sampled: Option<Seq<usize>>,
    num_features: usize,
    feature: usize,
)
    requires
        feature < num_features,
        sampled matches Some(list) ==> forall|i: int| 0 <= i < list.len() ==> #[trigger] list[i] < num_features,
    ensures
        ({
            let found = effective_mask(constraints, ancestors, sampled, num_features as nat);
            let grouped = constraints.group_list().len() > 0;
            let in_sample = sampled is None || sampled->0.contains(feature);
            let sample_has_some = sampled is Some && exists|f: usize|
                #[trigger] sampled->0.contains(f) && f < num_features && constraints.allows(ancestors, f);
            let wanted = if !grouped {
                in_sample
            } else if sample_has_some {
                in_sample && constraints.allows(ancestors, feature)
            } else {
                constraints.allows(ancestors, feature)
            };
            &&& found is Some ==> (found->0.contains(feature) <==> wanted)
            &&& found is None ==> wanted
            &&& found is Some ==> exists|f: usize| f < num_features && !(#[trigger] found->0.contains(f))
        }),
{
    let keep = |f: int| constraints.allows(ancestors, f as usize);
    let allowed = ascending_where(num_features as nat, keep);
    lemma_ascending_where(num_features as nat, keep);
    assert(allowed.contains(feature) <==> constraints.allows(ancestors, feature));
    if let Some(list) = sampled {
        let both = list.filter(|f: usize| allowed.contains(f));
        lemma_filter_contains(list, |f: usize| allowed.contains(f));
        if both.len() > 0 {
            assert(both.contains(both[0]));
            assert(list.contains(both[0]) && allowed.contains(both[0]));
        } else {
            assert forall|f: usize| #[trigger] list.contains(f) implies !(f < num_features && constraints.allows(
                ancestors,
                f,
            )) by {
                if f < num_features && constraints.allows(ancestors, f) {
                    assert(keep(f as int));
                    assert(allowed.contains(f));
                    assert(both.contains(f));
                }
            }
        }
        assert(both.contains(feature) <==> list.contains(feature) && allowed.contains(feature));
    }
    let usable = usable_features(constraints, ancestors, sampled, num_features as nat);
    if let Some(list) = usable {
        assert(holds_all(list, num_features as nat) ==> list.contains(feature));
    }
}

/// What a filtered list holds.
proof fn lemma_filter_contains(list: Seq<usize>, keep: spec_fn(usize) -> bool)
    ensures
        forall|f: usize| #[trigger] list.filter(keep).contains(f) <==> list.contains(f) && keep(f),
    decreases list.len(),
{
    reveal(Seq::filter);
    if list.len() > 0 {
        let shorter = list.drop_last();
        let last = list.last();
        lemma_filter_contains(shorter, keep);
        let all = list.filter(keep);
        let before = shorter.filter(keep);
        assert forall|f: usize| #[trigger] all.contains(f) <==> list.contains(f) && keep(f) by {
            if all.contains(f) {
                let i = choose|i: int| 0 <= i < all.len() && all[i] == f;
                if i < before.len() {
                    assert(before[i] == f);
                    assert(before.contains(f));
                    let j = choose|j: int| 0 <= j < shorter.len() && shorter[j] == f;
                    assert(list[j] == f);
                } else {
                    assert(list[list.len() - 1] == f);
                }
            }
            if list.contains(f) && keep(f) {
                let i = choose|i: int| 0 <= i < list.len() && list[i] == f;
                if i < shorter.len() {
                    assert(shorter[i] == f);
                    assert(before.contains(f));
                    let j = choose|j: int| 0 <= j < before.len() && before[j] == f;
                    assert(all[j] == f);
                } else {
                    assert(all[before.len() as int] == f);
                }
            }
        }
    }
}

/// Where a grower starts from.
pub proof fn law_default_grower(grower: TreeGrower)
    requires
        default_grower(grower),
    ensures
        grower.max_depth == 6,
        grower.max_leaves == 31,
        grower.lambda.bits == 0x3f80_0000,
        grower.min_samples_leaf == 1,
        grower.min_hessian_leaf.bits == 0x3f80_0000,
        grower.entropy_weight.bits == 0,
        grower.min_gain.bits == 0,
        grower.learning_rate.bits == 0x3dcc_cccd,
        grower.colsample.bits == 0x3f80_0000,
        grower.monotonic_constraints@.len() == 0,
        grower.interaction_constraints.group_list().len() == 0,
        !grower.era_splitting && !grower.noise_pruning && !grower.use_missing_value_learning,
        grower.noise_pruning_threshold.bits == 0xbdcc_cccd,
{
}

/// What there is before a cut was found: no rows on either side, and a gain below
/// every other.
pub proof fn law_nothing_found_yet(feature_idx: usize, other: SplitInfo)
    ensures
        no_split(feature_idx).feature_idx == feature_idx,
        no_split(feature_idx).left_count == 0 && no_split(feature_idx).right_count == 0,
        no_split(feature_idx).default_left,
        !other.gain.nan() ==> no_split(feature_idx).gain.at_most(other.gain),
        !no_split(feature_idx).valid(),
        other.valid() <==> !other.gain.nan() && other.gain.bits != 0xff80_0000 && other.left_count >= 1
            && other.right_count >= 1,
{
}

/// Which leaf weights keep to the constraint of a feature: on a feature that
/// rises the left one is at most the right one, on one that falls the other way
/// round, and any on a feature without a constraint.
pub proof fn law_directions_are_kept(finder: SplitFinder, feature_idx: usize, left_weight: F32, right_weight: F32)
    ensures
        ({
            let listed = feature_idx < finder.monotonic_constraints@.len();
            let constraint = finder.monotonic_constraints@[feature_idx as int];
            let kept = finder.keeps_direction(feature_idx, left_weight, right_weight);
            &&& !listed ==> kept
            &&& listed && constraint == MonotonicConstraint::Unconstrained ==> kept
            &&& listed && constraint == MonotonicConstraint::Increasing ==> (kept <==> left_weight.at_most(
                right_weight,
            ))
            &&& listed && constraint == MonotonicConstraint::Decreasing ==> (kept <==> right_weight.at_most(
                left_weight,
            ))
        }),
{
}

} // verus!
