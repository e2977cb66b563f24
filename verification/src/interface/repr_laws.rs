//! What the texts that describe settings say.

use crate::interface::repr::{
    bounds_text, folds_text, grid_fields, grid_text, largest_size, separated, smallest_size,
};
use crate::text::decimal;
use crate::tuner::bounds::BoundsView;
use crate::tuner::config::GridStrategy;
use vstd::prelude::*;

verus! {

/// Parts are joined in their order, with the separator between every two of them
/// and at neither end.
pub proof fn law_parts_are_joined(parts: Seq<Seq<char>>, added: Seq<char>, separator: Seq<char>)
    ensures
        separated(Seq::<Seq<char>>::empty(), separator) == Seq::<char>::empty(),
        separated(seq![added], separator) == added,
        parts.len() > 0 ==> separated(parts.push(added), separator) == separated(parts, separator) + separator + added,
{
    assert(parts.push(added).drop_last() =~= parts);
}

/// The smallest and the largest size are sizes, and every size lies between
/// them.
pub proof fn law_sizes_lie_between(sizes: Seq<usize>, i: int)
    requires
        0 <= i < sizes.len(),
    ensures
        smallest_size(sizes) <= sizes[i] <= largest_size(sizes),
        sizes.contains(smallest_size(sizes)),
        sizes.contains(largest_size(sizes)),
{
    lemma_sizes(sizes);
}

proof fn lemma_sizes(sizes: Seq<usize>)
    requires
        sizes.len() > 0,
    ensures
        forall|i: int| 0 <= i < sizes.len() ==> smallest_size(sizes) <= #[trigger] sizes[i] <= largest_size(sizes),
        sizes.contains(smallest_size(sizes)),
        sizes.contains(largest_size(sizes)),
    decreases sizes.len(),
{
    if sizes.len() > 1 {
        let fewer = sizes.drop_last();
        lemma_sizes(fewer);
        let a = choose|a: int| 0 <= a < fewer.len() && fewer[a] == smallest_size(fewer);
        let b = choose|b: int| 0 <= b < fewer.len() && fewer[b] == largest_size(fewer);
        assert(sizes[a] == fewer[a] && sizes[b] == fewer[b]);
        assert(sizes[sizes.len() - 1] == sizes.last());
        assert forall|i: int| 0 <= i < sizes.len() implies smallest_size(sizes) <= #[trigger] sizes[i]
            <= largest_size(sizes) by {
            if i < fewer.len() {
                assert(fewer[i] == sizes[i]);
            }
        }
    } else {
        assert(largest_size(sizes.drop_last()) == 0);
        assert(sizes[0] == sizes.last());
    }
}

/// The text of a grid is the call that makes it, and its fields are told by
/// name.
pub proof fn law_grid_texts(n: usize)
    ensures
        grid_text(GridStrategy::Cartesian { points_per_dim: n }) == "GridStrategy.cartesian("@ + decimal(n as nat)
            + ")"@,
        grid_text(GridStrategy::LatinHypercube { n_samples: n }) == "GridStrategy.lhs("@ + decimal(n as nat) + ")"@,
        grid_text(GridStrategy::Random { n_samples: n }) == "GridStrategy.random("@ + decimal(n as nat) + ")"@,
        grid_fields(GridStrategy::Cartesian { points_per_dim: n }) == "Cartesian { points_per_dim: "@ + decimal(
            n as nat,
        ) + " }"@,
        grid_fields(GridStrategy::LatinHypercube { n_samples: n }) == "LatinHypercube { n_samples: "@ + decimal(
            n as nat,
        ) + " }"@,
        grid_fields(GridStrategy::Random { n_samples: n }) == "Random { n_samples: "@ + decimal(n as nat) + " }"@,
{
}

/// One fold goes without saying; any other number of folds is told.
pub proof fn law_folds_are_told(folds: usize)
    ensures
        folds == 1 ==> folds_text(folds).len() == 0,
        folds != 1 ==> folds_text(folds) == ".with_folds("@ + decimal(folds as nat) + ")"@,
{
}

/// The text of bounds is the call that makes them.
pub proof fn law_bounds_texts(bounds: BoundsView, min: Seq<char>, max: Seq<char>)
    ensures
        bounds matches BoundsView::Continuous { log_scale, .. } ==> {
            &&& !log_scale ==> bounds_text(bounds, min, max) == "ParamBounds.continuous("@ + min + ", "@ + max + ")"@
            &&& log_scale ==> bounds_text(bounds, min, max) == "ParamBounds.log_continuous("@ + min + ", "@ + max
                + ")"@
        },
        bounds matches BoundsView::Discrete { min: low, max: high, step } ==> {
            &&& step == 1 ==> bounds_text(bounds, min, max) == "ParamBounds.discrete("@ + decimal(low as nat) + ", "@
                + decimal(high as nat) + ")"@
            &&& step != 1 ==> bounds_text(bounds, min, max) == "ParamBounds.discrete_step("@ + decimal(low as nat)
                + ", "@ + decimal(high as nat) + ", "@ + decimal(step as nat) + ")"@
        },
        bounds matches BoundsView::Categorical { values } ==> bounds_text(bounds, min, max)
            == "ParamBounds.categorical(["@ + separated(values, ", "@) + "])"@,
{
}

} // verus!
