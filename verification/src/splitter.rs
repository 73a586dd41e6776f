use vstd::prelude::*;

use crate::realnum::{real_eq, Real};
use crate::row::TrainingRow;
use crate::split::{split_in_bounds, Split};

verus! {

/// A split-search strategy: asked for the best split of one node's rows, it
/// answers with a split and the impurity decrease that split won. Degenerate
/// input — no rows, a constant feature, too few rows for the leaf minimum —
/// resolves to an empty split with a zero decrease, never an error.
///
/// The tree learner accepts any implementation and relies on two promises
/// alone: whatever split comes back can examine every row it was derived from
/// (so the learner can route those rows), and an empty split carries a zero
/// decrease. Implementations draw their features at random and score candidates
/// with floating-point impurity arithmetic; nothing further is assumed about
/// which split they choose.
pub trait Splitter<L> {
    /// Get the best split, considering `num_features` random features (without
    /// replacement).
    fn find_best_split(
        &mut self,
        data: &Vec<TrainingRow<L>>,
        num_features: usize,
        min_count: usize,
    ) -> (r: (Split, Real))
        ensures
            forall|i: int| 0 <= i < data.len() ==> split_in_bounds(r.0, data@[i].features),
            r.0 is Empty ==> real_eq(r.1.bits, 0u64),
    ;
}

} // verus!
