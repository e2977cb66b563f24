//! Candidates that are drawn.

use crate::float::F32;
use crate::sorting::{lemma_every_position_occurs, positions};
use crate::tuner::bounds::{law_clamped_is_within, BoundsView};
use crate::tuner::grid::named;
use crate::tuner::space::{param_views, ParamDef, ParamView, ParameterSpace};
use crate::tuner::values::ParamMap;
use rand::rngs::StdRng;
use vstd::prelude::*;

verus! {

/// The generator of the `rand` crate.
#[verifier::external_type_specification]
#[verifier::external_body]
pub struct ExStdRng(StdRng);

/// Calls `SeedableRng::seed_from_u64`. The stream that a seed gives may change
/// with the version of the `rand` crate, so nothing is claimed of the generator.
#[verifier::external_body]
fn seeded(seed: u64) -> (rng: StdRng) {
    rand::SeedableRng::seed_from_u64(seed)
}

/// Calls `SliceRandom::shuffle`. What comes out holds the same items as before,
/// each as often; which order they come in is left to the generator.
#[verifier::external_body]
fn shuffle(items: &mut Vec<usize>, rng: &mut StdRng)
    ensures
        final(items)@.to_multiset() == old(items)@.to_multiset(),
{
    rand::seq::SliceRandom::shuffle(items.as_mut_slice(), rng)
}

/// A list with the same items as the whole numbers up to `n` holds each of them
/// once.
proof fn lemma_reordered_positions(order: Seq<usize>, n: usize)
    requires
        order.to_multiset() == Seq::new(n as nat, |i: int| i as usize).to_multiset(),
    ensures
        positions(order, 0, n as int),
{
    let straight = Seq::new(n as nat, |i: int| i as usize);
    order.to_multiset_ensures();
    straight.to_multiset_ensures();
    assert(order.len() == n);
    assert(straight.no_duplicates());
    straight.lemma_multiset_has_no_duplicates();
    assert forall|i: int| 0 <= i < order.len() implies 0 <= #[trigger] order[i] < n by {
        assert(order.contains(order[i]));
        assert(order.to_multiset().contains(order[i]));
        assert(straight.contains(order[i]));
    }
    assert(order.no_duplicates()) by {
        assert forall|x: usize| order.to_multiset().contains(x) implies order.to_multiset().count(x) == 1 by {
            assert(straight.to_multiset().contains(x));
        }
        order.lemma_multiset_has_no_duplicates_conv();
    }
}

/// For each parameter, the stratum of each sample: every stratum of every
/// parameter has one sample. The generator comes back for what else is drawn.
pub fn shuffled_strata(n_params: usize, n_samples: usize, seed: u64) -> (drawn: (Vec<Vec<usize>>, StdRng))
    ensures
        (drawn.0)@.len() == n_params,
        forall|p: int| 0 <= p < n_params ==> positions((#[trigger] (drawn.0)@[p])@, 0, n_samples as int),
{
    let mut rng: StdRng = seeded(seed);
    let mut strata: Vec<Vec<usize>> = Vec::new();
    let mut p: usize = 0;
    while p < n_params
        invariant
            p <= n_params,
            strata@.len() == p,
            forall|q: int| 0 <= q < p ==> positions((#[trigger] strata@[q])@, 0, n_samples as int),
        decreases n_params - p,
    {
        let mut order: Vec<usize> = Vec::new();
        let mut i: usize = 0;
        while i < n_samples
            invariant
                i <= n_samples,
                order@ == Seq::new(i as nat, |j: int| j as usize),
            decreases n_samples - i,
        {
            order.push(i);
            i = i + 1;
            assert(order@ =~= Seq::new(i as nat, |j: int| j as usize));
        }
        shuffle(&mut order, &mut rng);
        proof {
            lemma_reordered_positions(order@, n_samples);
        }
        strata.push(order);
        p = p + 1;
    }
    (strata, rng)
}

/// The values of a row brought within the bounds of their parameters.
pub open spec fn clamped_row(params: Seq<ParamView>, row: Seq<F32>) -> Seq<F32> {
    Seq::new(params.len(), |i: int| params[i].bounds.clamped(row[i]))
}

/// A candidate from a row of drawn values.
fn drawn_candidate(params: &[ParamDef], row: &Vec<F32>) -> (values: ParamMap<F32>)
    requires
        row@.len() == params@.len(),
        forall|i: int| 0 <= i < params@.len() ==> (#[trigger] params@[i])@.bounds.valid(),
    ensures
        values.wf(),
        values@ == named(param_views(params@), clamped_row(param_views(params@), row@)),
{
    let ghost views = param_views(params@);
    let ghost clamped = clamped_row(views, row@);
    let count: usize = params.len();
    let mut values: ParamMap<F32> = ParamMap::new();
    let mut i: usize = 0;
    while i < count
        invariant
            i <= count == params@.len() == row@.len(),
            views == param_views(params@),
            clamped == clamped_row(views, row@),
            forall|j: int| 0 <= j < params@.len() ==> (#[trigger] params@[j])@.bounds.valid(),
            values.wf(),
            values@ == named(views.take(i as int), clamped),
        decreases count - i,
    {
        let value: F32 = params[i].bounds.clamp(row[i]);
        values.insert(params[i].name_str().to_owned(), value);
        assert(views[i as int] == params@[i as int]@);
        assert(views.take(i + 1).drop_last() =~= views.take(i as int));
        assert(views.take(i + 1).last() == views[i as int]);
        i = i + 1;
    }
    assert(views.take(count as int) =~= views);
    values
}

/// Candidates from drawn values, one row per candidate with one value per
/// parameter. Values outside the bounds are brought within them.
pub fn drawn_candidates(space: &ParameterSpace, rows: &[Vec<F32>]) -> (found: Vec<ParamMap<F32>>)
    requires
        forall|i: int| 0 <= i < space@.len() ==> (#[trigger] space@[i]).bounds.valid(),
        forall|k: int| 0 <= k < rows@.len() ==> (#[trigger] rows@[k])@.len() == space@.len(),
    ensures
        found@.len() == rows@.len(),
        forall|k: int|
            0 <= k < rows@.len() ==> (#[trigger] found@[k]).wf() && found@[k]@ == named(
                space@,
                clamped_row(space@, rows@[k]@),
            ),
{
    let params: &[ParamDef] = space.params();
    proof {
        assert forall|i: int| 0 <= i < params@.len() implies (#[trigger] params@[i])@.bounds.valid() by {
            assert(space@[i] == params@[i]@);
        }
    }
    let count: usize = rows.len();
    let mut found: Vec<ParamMap<F32>> = Vec::new();
    let mut k: usize = 0;
    while k < count
        invariant
            k <= count == rows@.len(),
            param_views(params@) == space@,
            forall|i: int| 0 <= i < params@.len() ==> (#[trigger] params@[i])@.bounds.valid(),
            forall|j: int| 0 <= j < rows@.len() ==> (#[trigger] rows@[j])@.len() == space@.len(),
            found@.len() == k,
            forall|j: int|
                0 <= j < k ==> (#[trigger] found@[j]).wf() && found@[j]@ == named(space@, clamped_row(space@, rows@[j]@)),
        decreases count - k,
    {
        found.push(drawn_candidate(params, &rows[k]));
        k = k + 1;
    }
    found
}

/// The seed with which new centers are drawn after `trials` trials.
pub fn center_seed(seed: u64, trials: usize) -> (next: u64)
    ensures
        next == (seed + trials) % 0x1_0000_0000_0000_0000,
{
    seed.wrapping_add(trials as u64)
}

/// Whichever way the strata are shuffled, every stratum of a parameter has a
/// sample, and only one.
pub proof fn law_every_stratum_has_one_sample(order: Seq<usize>, n_samples: nat, stratum: usize)
    requires
        positions(order, 0, n_samples as int),
        stratum < n_samples,
    ensures
        exists|sample: int| 0 <= sample < order.len() && order[sample] == stratum,
        forall|a: int, b: int| 0 <= a < order.len() && 0 <= b < order.len() && #[trigger] order[a] == stratum && #[trigger] order[b] == stratum ==> a == b,
{
    lemma_every_position_occurs(order, n_samples, stratum);
}

/// Drawn candidates respect the bounds of their parameters.
pub proof fn law_drawn_values_are_within_bounds(params: Seq<ParamView>, row: Seq<F32>, i: int)
    requires
        row.len() == params.len(),
        0 <= i < params.len(),
        params[i].bounds.valid(),
        params[i].bounds is Continuous ==> !row[i].nan(),
        params[i].bounds matches BoundsView::Categorical { values } ==> 0 < values.len() <= usize::MAX,
    ensures
        params[i].bounds.holds(clamped_row(params, row)[i]),
{
    law_clamped_is_within(params[i].bounds, row[i]);
}

/// A value that was drawn within continuous bounds is tried as it is, and one
/// beyond an end is tried as that end.
pub proof fn law_drawn_values_are_tried(params: Seq<ParamView>, row: Seq<F32>, i: int)
    requires
        row.len() == params.len(),
        0 <= i < params.len(),
        params[i].bounds is Continuous,
        params[i].bounds.valid(),
    ensures
        clamped_row(params, row).len() == params.len(),
        params[i].bounds.holds(row[i]) ==> clamped_row(params, row)[i] == row[i],
        row[i].less(params[i].bounds.least()) ==> clamped_row(params, row)[i] == params[i].bounds.least(),
        params[i].bounds.greatest().less(row[i]) ==> clamped_row(params, row)[i] == params[i].bounds.greatest(),
{
}

} // verus!
