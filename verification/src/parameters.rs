use vstd::prelude::*;

use crate::realnum::Real;

verus! {

/// Hyperparameters for a decision tree learner, fixed for the duration of one fit.
#[derive(Debug, Copy, Clone)]
pub struct DecisionTreeParameters {
    pub max_depth: usize,
    pub num_features: usize,
    pub min_leaf_instances: usize,
    pub min_impurity_decrease: Real,
}

impl DecisionTreeParameters {
    /// The maximum depth of the tree.
    pub fn with_max_depth(self, max_depth: usize) -> (r: DecisionTreeParameters)
        ensures
            r == (DecisionTreeParameters { max_depth, ..self }),
    {
        DecisionTreeParameters { max_depth, ..self }
    }

    /// The numbers of features to consider at each split.
    pub fn with_num_features(self, num_features: usize) -> (r: DecisionTreeParameters)
        ensures
            r == (DecisionTreeParameters { num_features, ..self }),
    {
        DecisionTreeParameters { num_features, ..self }
    }

    /// The minimum number of samples required to be at a leaf node.
    pub fn with_min_leaf_instances(self, min_leaf_instances: usize) -> (r: DecisionTreeParameters)
        ensures
            r == (DecisionTreeParameters { min_leaf_instances, ..self }),
    {
        DecisionTreeParameters { min_leaf_instances, ..self }
    }

    /// The minimum change in impurity for splitting an internal node.
    pub fn with_min_impurity_decrease(self, min_impurity_decrease: Real) -> (r:
        DecisionTreeParameters)
        ensures
            r == (DecisionTreeParameters { min_impurity_decrease, ..self }),
    {
        DecisionTreeParameters { min_impurity_decrease, ..self }
    }
}

impl Default for DecisionTreeParameters {
    /// Depth 30, every feature considered, at least two rows per leaf, and any
    /// positive impurity decrease accepted.
    fn default() -> (r: DecisionTreeParameters)
        ensures
            r.max_depth == 30,
            r.num_features == usize::MAX,
            r.min_leaf_instances == 2,
            r.min_impurity_decrease.bits == 0u64,
    {
        DecisionTreeParameters {
            max_depth: 30,
            num_features: usize::MAX,
            min_leaf_instances: 2,
            min_impurity_decrease: Real::zero(),
        }
    }
}

} // verus!
