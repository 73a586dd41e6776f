use vstd::prelude::*;

use crate::realnum::{key_of, real_lt, Real};
use crate::row::{FeatureRow, TrainingRow};
use crate::split::{split_in_bounds, spec_turn_left, Split};

verus! {

/// The raw partition tree built while training: leaves hold their row subsets
/// unchanged, internal nodes hold the accepted split, the impurity decrease it
/// won, and the two children the split's routing carved out.
#[derive(Debug)]
pub enum TrainingNode<L> {
    Leaf { data: Vec<TrainingRow<L>>, depth: usize },
    Internal {
        split: Split,
        left: Box<TrainingNode<L>>,
        right: Box<TrainingNode<L>>,
        delta: Real,
        depth: usize,
    },
}

/// Every row a training tree holds, leaves walked left to right.
pub open spec fn tree_rows<L>(n: TrainingNode<L>) -> Seq<TrainingRow<L>>
    decreases n,
{
    match n {
        TrainingNode::Leaf { data, .. } => data@,
        TrainingNode::Internal { left, right, .. } => tree_rows(*left) + tree_rows(*right),
    }
}

/// The depth recorded at a training tree's root node.
pub open spec fn node_depth<L>(n: TrainingNode<L>) -> usize {
    match n {
        TrainingNode::Leaf { depth, .. } => depth,
        TrainingNode::Internal { depth, .. } => depth,
    }
}

/// What holds of every tree the learner builds: no node lies deeper than the
/// depth budget, every internal node keeps a real rule whose impurity decrease
/// strictly exceeds the configured minimum, and children sit one level below their
/// parent.
pub open spec fn tree_wf<L>(n: TrainingNode<L>, max_depth: int, min_dec: u64) -> bool
    decreases n,
{
    match n {
        TrainingNode::Leaf { depth, .. } => depth <= max_depth,
        TrainingNode::Internal { split, left, right, delta, depth } => {
            &&& depth < max_depth
            &&& !(split is Empty)
            &&& real_lt(min_dec, delta.bits)
            &&& node_depth(*left) == depth + 1
            &&& node_depth(*right) == depth + 1
            &&& tree_wf(*left, max_depth, min_dec)
            &&& tree_wf(*right, max_depth, min_dec)
        },
    }
}

/// Every row of a tree sits where its splits route it: at each internal node,
/// the rows of the left subtree turn left at the node's split and the rows of
/// the right subtree do not.
pub open spec fn splits_routed<L>(n: TrainingNode<L>) -> bool
    decreases n,
{
    match n {
        TrainingNode::Leaf { .. } => true,
        TrainingNode::Internal { split, left, right, .. } => {
            &&& forall|i: int|
                0 <= i < tree_rows(*left).len() ==> spec_turn_left(
                    split,
                    #[trigger] tree_rows(*left)[i].features,
                )
            &&& forall|i: int|
                0 <= i < tree_rows(*right).len() ==> !spec_turn_left(
                    split,
                    #[trigger] tree_rows(*right)[i].features,
                )
            &&& splits_routed(*left)
            &&& splits_routed(*right)
        },
    }
}

/// Every internal node of the tree records a numerically positive impurity
/// decrease.
pub open spec fn internal_deltas_positive<L>(n: TrainingNode<L>) -> bool
    decreases n,
{
    match n {
        TrainingNode::Leaf { .. } => true,
        TrainingNode::Internal { left, right, delta, .. } => {
            &&& key_of(delta.bits) > 0
            &&& internal_deltas_positive(*left)
            &&& internal_deltas_positive(*right)
        },
    }
}

/// Accepted splits never increase the total weighted impurity against their
/// parent: with a non-negative minimum impurity decrease, every split kept in a
/// well-formed tree records a strictly positive decrease, because only strict
/// improvements were accepted.
pub proof fn lemma_accepted_splits_positive<L>(n: TrainingNode<L>, max_depth: int, min_dec: u64)
    requires
        tree_wf(n, max_depth, min_dec),
        key_of(min_dec) >= 0,
    ensures
        internal_deltas_positive(n),
    decreases n,
{
    match n {
        TrainingNode::Leaf { .. } => {},
        TrainingNode::Internal { left, right, .. } => {
            lemma_accepted_splits_positive(*left, max_depth, min_dec);
            lemma_accepted_splits_positive(*right, max_depth, min_dec);
        },
    }
}

impl<L> TrainingNode<L> {
    /// A terminal node keeping its rows unchanged.
    pub fn leaf(data: Vec<TrainingRow<L>>, depth: usize) -> (r: TrainingNode<L>)
        ensures
            r == (TrainingNode::Leaf { data, depth }),
    {
        TrainingNode::Leaf { data, depth }
    }

    /// An internal node over its two children.
    pub fn internal(
        split: Split,
        left: Box<TrainingNode<L>>,
        right: Box<TrainingNode<L>>,
        delta: Real,
        depth: usize,
    ) -> (r: TrainingNode<L>)
        ensures
            r == (TrainingNode::Internal { split, left, right, delta, depth }),
    {
        TrainingNode::Internal { split, left, right, delta, depth }
    }
}

/// The prediction tree built once from a training tree: the shape and splits stay,
/// leaves hold a fitted sub-model and each node records its aggregate training
/// weight.
#[derive(Debug)]
pub enum ModelNode<M> {
    Leaf { model: M, training_weight: Real, depth: usize },
    Internal {
        split: Split,
        left: Box<ModelNode<M>>,
        right: Box<ModelNode<M>>,
        training_weight: Real,
        depth: usize,
    },
}

/// Whether every split in the model tree can examine the given row.
pub open spec fn model_splits_in_bounds<M>(n: ModelNode<M>, row: FeatureRow) -> bool
    decreases n,
{
    match n {
        ModelNode::Leaf { .. } => true,
        ModelNode::Internal { split, left, right, .. } => {
            &&& split_in_bounds(split, row)
            &&& model_splits_in_bounds(*left, row)
            &&& model_splits_in_bounds(*right, row)
        },
    }
}

/// The node a row is routed to: from the root, each internal node's split sends
/// the row to one child; the walk ends at a leaf.
pub open spec fn spec_route<M>(n: ModelNode<M>, row: FeatureRow) -> ModelNode<M>
    decreases n,
{
    match n {
        ModelNode::Leaf { .. } => n,
        ModelNode::Internal { split, left, right, .. } => {
            if spec_turn_left(split, row) {
                spec_route(*left, row)
            } else {
                spec_route(*right, row)
            }
        },
    }
}

/// The sub-model held by a leaf.
pub open spec fn leaf_model_of<M>(n: ModelNode<M>) -> M {
    match n {
        ModelNode::Leaf { model, .. } => model,
        ModelNode::Internal { .. } => arbitrary(),
    }
}

/// Routing always ends at a leaf.
pub proof fn lemma_route_reaches_leaf<M>(n: ModelNode<M>, row: FeatureRow)
    ensures
        spec_route(n, row) is Leaf,
    decreases n,
{
    match n {
        ModelNode::Leaf { .. } => {},
        ModelNode::Internal { split, left, right, .. } => {
            lemma_route_reaches_leaf(*left, row);
            lemma_route_reaches_leaf(*right, row);
        },
    }
}

/// How many leaves a training tree has.
pub open spec fn leaf_count<L>(n: TrainingNode<L>) -> nat
    decreases n,
{
    match n {
        TrainingNode::Leaf { .. } => 1,
        TrainingNode::Internal { left, right, .. } => leaf_count(*left) + leaf_count(*right),
    }
}

/// How many nodes a training tree has, leaves and internal nodes together.
pub open spec fn node_count<L>(n: TrainingNode<L>) -> nat
    decreases n,
{
    match n {
        TrainingNode::Leaf { .. } => 1,
        TrainingNode::Internal { left, right, .. } => 1 + node_count(*left) + node_count(*right),
    }
}

/// Whether a prediction tree mirrors a training tree exactly: the same shape,
/// with the same split and depth at every internal node and the same depth at
/// every leaf.
pub open spec fn mirrors_shape<L, M>(t: TrainingNode<L>, m: ModelNode<M>) -> bool
    decreases t,
{
    match t {
        TrainingNode::Leaf { depth, .. } => m is Leaf && m->Leaf_depth == depth,
        TrainingNode::Internal { split, left, right, depth, .. } => {
            &&& m is Internal
            &&& m->Internal_split == split
            &&& m->Internal_depth == depth
            &&& mirrors_shape(*left, *m->Internal_left)
            &&& mirrors_shape(*right, *m->Internal_right)
        },
    }
}

/// The sub-models at a prediction tree's leaves, left to right.
pub open spec fn model_leaves<M>(m: ModelNode<M>) -> Seq<M>
    decreases m,
{
    match m {
        ModelNode::Leaf { model, .. } => seq![model],
        ModelNode::Internal { left, right, .. } => model_leaves(*left) + model_leaves(*right),
    }
}

/// The training weights recorded at a prediction tree's nodes, each parent
/// before its children.
pub open spec fn model_weights<M>(m: ModelNode<M>) -> Seq<Real>
    decreases m,
{
    match m {
        ModelNode::Leaf { training_weight, .. } => seq![training_weight],
        ModelNode::Internal { left, right, training_weight, .. } => seq![training_weight]
            + model_weights(*left) + model_weights(*right),
    }
}

/// A mirrored prediction tree holds one sub-model per leaf and one weight per
/// node of its training tree.
pub proof fn lemma_mirrored_counts<L, M>(t: TrainingNode<L>, m: ModelNode<M>)
    requires
        mirrors_shape(t, m),
    ensures
        model_leaves(m).len() == leaf_count(t),
        model_weights(m).len() == node_count(t),
    decreases t,
{
    match t {
        TrainingNode::Leaf { .. } => {},
        TrainingNode::Internal { left, right, .. } => {
            lemma_mirrored_counts(*left, *m->Internal_left);
            lemma_mirrored_counts(*right, *m->Internal_right);
        },
    }
}

/// Convert a training tree into a prediction tree, bottom-up: the shape, splits
/// and depths stay exactly as they are, each leaf takes the next of the fitted
/// sub-models (handed over in left-to-right leaf order), and each node takes
/// the next of the recorded training weights (handed over parents before
/// children). Fitting the sub-models and summing the weights is the caller's
/// numeric work; the raw rows are discarded here.
pub fn assemble_model<L, M>(t: TrainingNode<L>, leaf_models: Vec<M>, weights: Vec<Real>) -> (r:
    ModelNode<M>)
    requires
        leaf_models.len() == leaf_count(t),
        weights.len() == node_count(t),
    ensures
        mirrors_shape(t, r),
        model_leaves(r) == leaf_models@,
        model_weights(r) == weights@,
{
    let ghost models0 = leaf_models@;
    let ghost weights0 = weights@;
    let (node, rest_models, rest_weights) = assemble_model_rec(t, leaf_models, weights);
    proof {
        lemma_mirrored_counts(t, node);
        assert(rest_models@.len() == 0);
        assert(rest_weights@.len() == 0);
        assert(model_leaves(node) =~= models0);
        assert(model_weights(node) =~= weights0);
    }
    node
}

/// One step of the conversion: build the subtree for `t` from the front of the
/// two lists and hand the unused remainders back.
fn assemble_model_rec<L, M>(t: TrainingNode<L>, leaf_models: Vec<M>, weights: Vec<Real>) -> (r: (
    ModelNode<M>,
    Vec<M>,
    Vec<Real>,
))
    requires
        leaf_models.len() >= leaf_count(t),
        weights.len() >= node_count(t),
    ensures
        mirrors_shape(t, r.0),
        leaf_models@ == model_leaves(r.0) + r.1@,
        weights@ == model_weights(r.0) + r.2@,
    decreases t,
{
    let ghost models0 = leaf_models@;
    let ghost weights0 = weights@;
    match t {
        TrainingNode::Leaf { depth, .. } => {
            let mut leaf_models = leaf_models;
            let mut weights = weights;
            let w = weights.remove(0);
            let model = leaf_models.remove(0);
            let node = ModelNode::leaf(model, w, depth);
            proof {
                assert(models0 =~= model_leaves(node) + leaf_models@);
                assert(weights0 =~= model_weights(node) + weights@);
            }
            (node, leaf_models, weights)
        },
        TrainingNode::Internal { split, left, right, depth, .. } => {
            let mut weights = weights;
            let w = weights.remove(0);
            let ghost weights1 = weights@;
            let (left_node, leaf_models, weights) = assemble_model_rec(*left, leaf_models, weights);
            proof {
                lemma_mirrored_counts(*t->Internal_left, left_node);
            }
            let (right_node, leaf_models, weights) = assemble_model_rec(
                *right,
                leaf_models,
                weights,
            );
            proof {
                lemma_mirrored_counts(*t->Internal_right, right_node);
            }
            let node = ModelNode::internal(split, Box::new(left_node), Box::new(right_node), w, depth);
            proof {
                assert(models0 =~= model_leaves(node) + leaf_models@);
                assert(weights0 =~= seq![w] + weights1);
                assert(weights0 =~= model_weights(node) + weights@);
            }
            (node, leaf_models, weights)
        },
    }
}

impl<M> ModelNode<M> {
    /// A terminal node holding a fitted sub-model.
    pub fn leaf(model: M, training_weight: Real, depth: usize) -> (r: ModelNode<M>)
        ensures
            r == (ModelNode::Leaf { model, training_weight, depth }),
    {
        ModelNode::Leaf { model, training_weight, depth }
    }

    /// An internal node over its two children.
    pub fn internal(
        split: Split,
        left: Box<ModelNode<M>>,
        right: Box<ModelNode<M>>,
        training_weight: Real,
        depth: usize,
    ) -> (r: ModelNode<M>)
        ensures
            r == (ModelNode::Internal { split, left, right, training_weight, depth }),
    {
        ModelNode::Internal { split, left, right, training_weight, depth }
    }

    /// The aggregate training weight recorded at this node.
    pub fn training_weight(&self) -> (r: Real)
        ensures
            r == match *self {
                ModelNode::Leaf { training_weight, .. } => training_weight,
                ModelNode::Internal { training_weight, .. } => training_weight,
            },
    {
        match self {
            ModelNode::Leaf { training_weight, .. } => *training_weight,
            ModelNode::Internal { training_weight, .. } => *training_weight,
        }
    }

    /// Walk the splits to the leaf this row is routed to and hand back its
    /// sub-model. The walk is a function of the tree and the row alone, so
    /// repeated calls on one built tree and one row reach the same sub-model.
    pub fn transform(&self, row: &FeatureRow) -> (r: &M)
        requires
            model_splits_in_bounds(*self, *row),
        ensures
            spec_route(*self, *row) is Leaf,
            *r == leaf_model_of(spec_route(*self, *row)),
        decreases *self,
    {
        proof {
            lemma_route_reaches_leaf(*self, *row);
        }
        match self {
            ModelNode::Leaf { model, .. } => model,
            ModelNode::Internal { split, left, right, .. } => {
                if split.turn_left(row) {
                    left.transform(row)
                } else {
                    right.transform(row)
                }
            },
        }
    }
}

} // verus!
