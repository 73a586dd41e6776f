use vstd::prelude::*;

use crate::nodes::{node_depth, splits_routed, tree_rows, tree_wf, TrainingNode};
use crate::parameters::DecisionTreeParameters;
use crate::realnum::{real_lt, Real};
use crate::row::TrainingRow;
use crate::split::{split_in_bounds, spec_turn_left, Split};
use crate::splitter::Splitter;

verus! {

/// The rows a split routes to the left, in their original order.
pub open spec fn routed_left<L>(split: Split, rows: Seq<TrainingRow<L>>) -> Seq<TrainingRow<L>> {
    rows.filter(|row: TrainingRow<L>| spec_turn_left(split, row.features))
}

/// The rows a split routes to the right, in their original order.
pub open spec fn routed_right<L>(split: Split, rows: Seq<TrainingRow<L>>) -> Seq<TrainingRow<L>> {
    rows.filter(|row: TrainingRow<L>| !spec_turn_left(split, row.features))
}

/// Split one node's rows by where the split routes them: the rows that turn left,
/// then the rows that turn right, each keeping its original order, and nothing
/// lost or invented.
pub fn partition_rows<L>(data: Vec<TrainingRow<L>>, split: &Split) -> (r: (
    Vec<TrainingRow<L>>,
    Vec<TrainingRow<L>>,
))
    requires
        forall|i: int| 0 <= i < data.len() ==> split_in_bounds(*split, data@[i].features),
    ensures
        r.0@ == routed_left(*split, data@),
        r.1@ == routed_right(*split, data@),
        r.0@.to_multiset().add(r.1@.to_multiset()) == data@.to_multiset(),
{
    broadcast use vstd::seq_lib::group_to_multiset_ensures;
    broadcast use vstd::multiset::group_multiset_axioms;

    let ghost data0 = data@;
    let n = data.len();
    let mut rest = data;
    let mut stack: Vec<TrainingRow<L>> = Vec::new();
    while rest.len() > 0
        invariant
            rest@ == data0.take(rest.len() as int),
            stack.len() + rest.len() == n,
            n == data0.len(),
            forall|j: int| 0 <= j < stack.len() ==> stack@[j] == data0[n - 1 - j],
        decreases rest.len(),
    {
        proof {
            assert(rest@.last() == data0[rest.len() - 1]);
            assert(data0.take(rest.len() as int).drop_last() =~= data0.take(rest.len() - 1));
        }
        let row = rest.pop().unwrap();
        stack.push(row);
    }
    let mut left: Vec<TrainingRow<L>> = Vec::new();
    let mut right: Vec<TrainingRow<L>> = Vec::new();
    proof {
        reveal_with_fuel(Seq::<_>::filter, 2);
    }
    let mut i: usize = 0;
    while stack.len() > 0
        invariant
            i + stack.len() == n,
            i <= n,
            n == data0.len(),
            forall|j: int| 0 <= j < stack.len() ==> stack@[j] == data0[n - 1 - j],
            forall|k: int| 0 <= k < data0.len() ==> split_in_bounds(*split, data0[k].features),
            left@ == routed_left(*split, data0.take(i as int)),
            right@ == routed_right(*split, data0.take(i as int)),
            left@.to_multiset().add(right@.to_multiset()) == data0.take(i as int).to_multiset(),
        decreases stack.len(),
    {
        proof {
            assert(stack@.last() == data0[n - stack.len()]);
            assert(data0[i as int] == stack@.last());
            assert(data0.take(i + 1).drop_last() =~= data0.take(i as int));
            assert(data0.take(i + 1).last() == data0[i as int]);
        }
        let row = stack.pop().unwrap();
        let ghost old_left = left@;
        let ghost old_right = right@;
        let ghost x = data0[i as int];
        proof {
            broadcast use vstd::multiset::group_multiset_axioms;

            vstd::seq_lib::to_multiset_build(data0.take(i as int), x);
            assert(data0.take(i + 1) =~= data0.take(i as int).push(x));
        }
        if split.turn_left(&row.features) {
            left.push(row);
            proof {
                broadcast use vstd::multiset::group_multiset_axioms;

                reveal_with_fuel(Seq::<_>::filter, 2);
                vstd::seq_lib::to_multiset_build(old_left, x);
                assert(left@ == old_left.push(x));
                assert(left@.to_multiset().add(right@.to_multiset()) =~= data0.take(
                    i + 1,
                ).to_multiset());
            }
        } else {
            right.push(row);
            proof {
                broadcast use vstd::multiset::group_multiset_axioms;

                reveal_with_fuel(Seq::<_>::filter, 2);
                vstd::seq_lib::to_multiset_build(old_right, x);
                assert(right@ == old_right.push(x));
                assert(left@.to_multiset().add(right@.to_multiset()) =~= data0.take(
                    i + 1,
                ).to_multiset());
            }
        }
        i = i + 1;
    }
    proof {
        assert(data0.take(n as int) =~= data0);
    }
    (left, right)
}

/// Builds a raw partition tree for real-valued labels: each node asks the
/// splitter for its best split, keeps it only when the impurity decrease clears
/// the configured minimum and both the depth and leaf-size budgets allow it, routes
/// the rows to the two children it creates, and otherwise stays a leaf holding
/// its rows unchanged.
pub struct RegressionTreeLearner<S> {
    pub splitter: S,
    pub params: DecisionTreeParameters,
}

impl<S: Splitter<Real>> RegressionTreeLearner<S> {
    /// A learner over the given split-search strategy and stopping rules.
    pub fn new(splitter: S, params: DecisionTreeParameters) -> (r: RegressionTreeLearner<S>)
        ensures
            r.splitter == splitter,
            r.params == params,
    {
        RegressionTreeLearner { splitter, params }
    }

    /// Grow the partition tree for one training set. The tree holds exactly the
    /// rows it was given; a spent depth budget makes it a single leaf, a leaf
    /// keeps the rows unchanged, the root records depth zero, and the tree is
    /// well formed for the learner's stopping rules: no node lies deeper than
    /// the depth budget, every internal node's impurity decrease strictly
    /// exceeds the minimum, and every row sits where the splits route it.
    pub fn fit(&mut self, data: Vec<TrainingRow<Real>>) -> (r: TrainingNode<Real>)
        requires
            data.len() >= 1,
            old(self).params.min_leaf_instances >= 1,
        ensures
            final(self).params == old(self).params,
            tree_rows(r).to_multiset() == data@.to_multiset(),
            tree_wf(
                r,
                old(self).params.max_depth as int,
                old(self).params.min_impurity_decrease.bits,
            ),
            splits_routed(r),
            node_depth(r) == 0,
            old(self).params.max_depth == 0 ==> r is Leaf,
            r is Leaf ==> r->Leaf_data == data,
    {
        let max_depth = self.params.max_depth;
        if max_depth == 0 {
            TrainingNode::leaf(data, 0)
        } else {
            let data_nf = data[0].features.num_features();
            let actual_nf = if data_nf < self.params.num_features {
                data_nf
            } else {
                self.params.num_features
            };
            let min_count = self.params.min_leaf_instances;
            let (split, delta) = self.splitter.find_best_split(&data, actual_nf, min_count);
            let min_decrease = self.params.min_impurity_decrease;
            if split.is_none() || !min_decrease.lt(&delta) {
                TrainingNode::leaf(data, 0)
            } else {
                self.split_internal(data, split, delta, actual_nf, max_depth)
            }
        }
    }

    /// Turn one node into an internal node for an accepted split: route the rows,
    /// grow both children one level deeper, and record the split and its
    /// decrease. `remaining_depth` is the depth budget at entry to this node.
    /// The result is an internal node holding exactly the given split and
    /// decrease, and each child holds exactly the rows the split routes its way.
    fn split_internal(
        &mut self,
        data: Vec<TrainingRow<Real>>,
        split: Split,
        delta: Real,
        num_features: usize,
        remaining_depth: usize,
    ) -> (r: TrainingNode<Real>)
        requires
            1 <= remaining_depth <= old(self).params.max_depth,
            old(self).params.min_leaf_instances >= 1,
            !(split is Empty),
            real_lt(old(self).params.min_impurity_decrease.bits, delta.bits),
            forall|i: int| 0 <= i < data.len() ==> split_in_bounds(split, data@[i].features),
        ensures
            final(self).params == old(self).params,
            tree_rows(r).to_multiset() == data@.to_multiset(),
            tree_wf(
                r,
                old(self).params.max_depth as int,
                old(self).params.min_impurity_decrease.bits,
            ),
            splits_routed(r),
            node_depth(r) == old(self).params.max_depth - remaining_depth,
            r is Internal,
            r->Internal_split == split,
            r->Internal_delta == delta,
            tree_rows(*r->Internal_left).to_multiset() == routed_left(
                split,
                data@,
            ).to_multiset(),
            tree_rows(*r->Internal_right).to_multiset() == routed_right(
                split,
                data@,
            ).to_multiset(),
        decreases remaining_depth, 0int,
    {
        broadcast use vstd::seq_lib::group_to_multiset_ensures;
        broadcast use vstd::multiset::group_multiset_axioms;

        let ghost data0 = data@;
        let (left_data, right_data) = partition_rows(data, &split);
        let ghost left0 = left_data@;
        let ghost right0 = right_data@;
        let left_child = self.build_child(left_data, num_features, remaining_depth - 1);
        let right_child = self.build_child(right_data, num_features, remaining_depth - 1);
        let depth = self.params.max_depth - remaining_depth;
        let node = TrainingNode::internal(
            split,
            Box::new(left_child),
            Box::new(right_child),
            delta,
            depth,
        );
        proof {
            vstd::seq_lib::lemma_multiset_commutative(
                tree_rows(*node->Internal_left),
                tree_rows(*node->Internal_right),
            );
            broadcast use vstd::seq_lib::group_filter_ensures;

            let lrows = tree_rows(*node->Internal_left);
            let rrows = tree_rows(*node->Internal_right);
            assert forall|i: int| 0 <= i < lrows.len() implies spec_turn_left(
                split,
                #[trigger] lrows[i].features,
            ) by {
                broadcast use vstd::seq_lib::group_to_multiset_ensures;

                let row = lrows[i];
                assert(lrows.contains(row));
                assert(lrows.to_multiset().contains(row));
                assert(left0.to_multiset().contains(row));
                assert(left0.contains(row));
                let j = choose|j: int| 0 <= j < left0.len() && left0[j] == row;
                assert(left0[j] == routed_left(split, data0)[j]);
            }
            assert forall|i: int| 0 <= i < rrows.len() implies !spec_turn_left(
                split,
                #[trigger] rrows[i].features,
            ) by {
                broadcast use vstd::seq_lib::group_to_multiset_ensures;

                let row = rrows[i];
                assert(rrows.contains(row));
                assert(rrows.to_multiset().contains(row));
                assert(right0.to_multiset().contains(row));
                assert(right0.contains(row));
                let j = choose|j: int| 0 <= j < right0.len() && right0[j] == row;
                assert(right0[j] == routed_right(split, data0)[j]);
            }
        }
        node
    }

    /// Grow one child node: split again while the rows, the remaining depth and
    /// the splitter's answer allow it, and settle into a leaf otherwise. A node
    /// with fewer rows than two leaves' worth, or no depth budget left, always
    /// stays a leaf, and a leaf keeps its rows unchanged. `remaining_depth` is
    /// the depth budget at entry to this node.
    fn build_child(
        &mut self,
        data: Vec<TrainingRow<Real>>,
        num_features: usize,
        remaining_depth: usize,
    ) -> (r: TrainingNode<Real>)
        requires
            remaining_depth <= old(self).params.max_depth,
            old(self).params.min_leaf_instances >= 1,
        ensures
            final(self).params == old(self).params,
            tree_rows(r).to_multiset() == data@.to_multiset(),
            tree_wf(
                r,
                old(self).params.max_depth as int,
                old(self).params.min_impurity_decrease.bits,
            ),
            splits_routed(r),
            node_depth(r) == old(self).params.max_depth - remaining_depth,
            data.len() < 2 * old(self).params.min_leaf_instances || remaining_depth == 0
                ==> r is Leaf,
            r is Leaf ==> r->Leaf_data == data,
        decreases remaining_depth, 1int,
    {
        let current_depth = self.params.max_depth - remaining_depth;
        let min_instances = self.params.min_leaf_instances;
        if min_instances <= data.len() / 2 && remaining_depth > 0 {
            proof {
                assert(data.len() >= 2 * min_instances) by {
                    assert(data.len() == 2 * (data.len() / 2) + data.len() % 2);
                }
            }
            let (split, delta) = self.splitter.find_best_split(&data, num_features, min_instances);
            let min_decrease = self.params.min_impurity_decrease;
            if !split.is_none() && min_decrease.lt(&delta) {
                self.split_internal(data, split, delta, num_features, remaining_depth)
            } else {
                TrainingNode::leaf(data, current_depth)
            }
        } else {
            TrainingNode::leaf(data, current_depth)
        }
    }
}

} // verus!
