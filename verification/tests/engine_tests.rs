use dtree::grouping::group_categories;
use dtree::leaf::GuessTheMeanModel;
use dtree::nodes::{assemble_model, ModelNode, TrainingNode};
use dtree::parameters::DecisionTreeParameters;
use dtree::realnum::Real;
use dtree::row::{categorical_column, real_column, FeatureRow, TrainingRow};
use dtree::scan::{best_categorical_prefix, best_real_candidate, pick_better, scan_argmin};
use dtree::sorting::{select_prefix, sort_indices_by};
use dtree::split::Split;
use dtree::splitter::Splitter;
use dtree::tree::{partition_rows, RegressionTreeLearner};

fn r(x: f64) -> Real {
    Real::from_bits(x.to_bits())
}

fn f(x: Real) -> f64 {
    f64::from_bits(x.to_bits())
}

fn real_row(values: &[f64], label: f64) -> TrainingRow<Real> {
    let data = values.iter().map(|&v| dtree::values::AnyValue::Real(r(v))).collect();
    TrainingRow::new(FeatureRow::new(data), r(label), None)
}

/// A split-search stub that always answers with one fixed split.
struct FixedSplitter {
    split: Split,
    delta: Real,
}

impl Splitter<Real> for FixedSplitter {
    fn find_best_split(
        &mut self,
        _data: &Vec<TrainingRow<Real>>,
        _num_features: usize,
        _min_count: usize,
    ) -> (Split, Real) {
        (self.split.clone(), self.delta)
    }
}

/// A split-search stub that answers with a scripted sequence of splits.
struct SequenceSplitter {
    answers: Vec<(Split, Real)>,
    next: usize,
}

impl Splitter<Real> for SequenceSplitter {
    fn find_best_split(
        &mut self,
        _data: &Vec<TrainingRow<Real>>,
        _num_features: usize,
        _min_count: usize,
    ) -> (Split, Real) {
        let answer = self.answers[self.next].clone();
        self.next += 1;
        answer
    }
}

#[test]
fn real_split_routing() {
    let split = Split::Real(0, r(1.5));
    let row_left = FeatureRow::new(vec![dtree::values::AnyValue::Real(r(1.49))]);
    let row_right = FeatureRow::new(vec![dtree::values::AnyValue::Real(r(1.51))]);
    let row_exact = FeatureRow::new(vec![dtree::values::AnyValue::Real(r(1.5))]);
    assert!(split.turn_left(&row_left));
    assert!(!split.turn_left(&row_right));
    assert!(split.turn_left(&row_exact));
}

#[test]
fn real_split_nan_rules() {
    let nan_value = FeatureRow::new(vec![dtree::values::AnyValue::Real(r(f64::NAN))]);
    let plain_value = FeatureRow::new(vec![dtree::values::AnyValue::Real(r(7.0))]);

    // A NaN value routes right past an ordinary threshold.
    let split = Split::Real(0, r(1.5));
    assert!(!split.turn_left(&nan_value));

    // A NaN threshold sends every non-NaN value left and NaN values right.
    let nan_split = Split::Real(0, r(f64::NAN));
    assert!(nan_split.turn_left(&plain_value));
    assert!(!nan_split.turn_left(&nan_value));
}

#[test]
fn categorical_split_routing() {
    let split = Split::Categorical(0, vec![2, 5]);
    let in_set = FeatureRow::new(vec![dtree::values::AnyValue::Categorical(5)]);
    let out_of_set = FeatureRow::new(vec![dtree::values::AnyValue::Categorical(3)]);
    assert!(split.turn_left(&in_set));
    assert!(!split.turn_left(&out_of_set));
    assert_eq!(split.index(), 0);
    assert!(!split.is_none());
    assert!(Split::Empty.is_none());
    assert!(!Split::Empty.turn_left(&in_set));
}

#[test]
fn sorting_orders_keys() {
    let keys = vec![r(3.0), r(1.0), r(2.0), r(-4.0), r(-0.0)];
    let order = sort_indices_by(&keys);
    assert_eq!(order, vec![3, 4, 1, 2, 0]);
}

#[test]
fn sorting_is_stable_for_ties() {
    let keys = vec![r(1.0), r(0.5), r(1.0), r(0.5)];
    let order = sort_indices_by(&keys);
    assert_eq!(order, vec![1, 3, 0, 2]);
}

#[test]
fn grouping_is_global_not_consecutive() {
    // Category 2 appears on both sides of category 1: the groups must still
    // collect every row of a category together.
    let cats = vec![2, 1, 2, 3, 1];
    let groups = group_categories(&cats);
    assert_eq!(groups.categories, vec![2, 1, 3]);
    assert_eq!(groups.members, vec![vec![0, 2], vec![1, 4], vec![3]]);
}

#[test]
fn scan_argmin_skips_nan_and_infinity() {
    let imp = vec![r(f64::NAN), r(f64::INFINITY), r(0.5), r(0.25), r(0.25)];
    let adm = vec![true, true, true, true, true];
    assert_eq!(scan_argmin(&imp, &adm), Some(3));

    let imp = vec![r(f64::NAN), r(f64::INFINITY)];
    let adm = vec![true, true];
    assert_eq!(scan_argmin(&imp, &adm), None);
}

#[test]
fn best_real_candidate_two_rows() {
    // Rows with one real feature [1.0, 2.0] and labels [1.0, 2.0]: moving the
    // first sorted row left leaves two pure sides, total impurity 0.
    let impurities = vec![r(0.0)];
    let ties = vec![false];
    let best = best_real_candidate(&impurities, &ties, 1);
    let (step, value) = best.expect("a split step should qualify");
    assert_eq!(step, 0);
    assert_eq!(f(value), 0.0);

    // The midpoint threshold between 1.0 and 2.0 routes 1.49 left, 1.51 right.
    let pivot = 0.5 * (1.0 + 2.0);
    assert_eq!(pivot, 1.5);
    let split = Split::Real(0, r(pivot));
    let row1 = FeatureRow::new(vec![dtree::values::AnyValue::Real(r(1.49))]);
    let row2 = FeatureRow::new(vec![dtree::values::AnyValue::Real(r(1.51))]);
    assert!(split.turn_left(&row1));
    assert!(!split.turn_left(&row2));
}

#[test]
fn best_real_candidate_constant_feature() {
    // Every boundary of a constant feature is tied, so no step qualifies.
    let impurities = vec![r(0.0), r(0.0)];
    let ties = vec![true, true];
    assert!(best_real_candidate(&impurities, &ties, 1).is_none());
}

#[test]
fn best_real_candidate_respects_min_count() {
    let impurities = vec![r(0.1), r(0.2)];
    let ties = vec![false, false];
    // With min_count 2 the first step would leave one row on the left.
    let best = best_real_candidate(&impurities, &ties, 2);
    let (step, value) = best.expect("the second step qualifies");
    assert_eq!(step, 1);
    assert_eq!(f(value), 0.2);
}

#[test]
fn best_categorical_prefix_isolates_outlier() {
    // Six unit-weight rows in three categories with mean labels 0.0, 0.5 and
    // 10.0, scanned in ascending mean order. The total statistics are
    // sum 21, squared sum 200.5, weight 6; moving the category means left one
    // group at a time gives the impurities below, and the cut that isolates
    // the far-off category wins.
    let total_sq = 200.5;
    let imp_after_first = total_sq - 0.0 - 21.0_f64.powi(2) / 4.0;
    let imp_after_second = total_sq - 1.0_f64.powi(2) / 4.0 - 20.0_f64.powi(2) / 2.0;
    assert_eq!(imp_after_first, 90.25);
    assert_eq!(imp_after_second, 0.25);

    let impurities = vec![r(imp_after_first), r(imp_after_second)];
    let sizes = vec![2, 2, 2];
    let best = best_categorical_prefix(&impurities, &sizes, 6, 1);
    let (cut, value) = best.expect("the cut should qualify");
    assert_eq!(cut, 1);
    assert_eq!(f(value), 0.25);

    // The winning prefix holds the two near categories, leaving the far-off
    // category alone on the right.
    let split = Split::Categorical(0, vec![2, 3]);
    let outlier = FeatureRow::new(vec![dtree::values::AnyValue::Categorical(1)]);
    let near = FeatureRow::new(vec![dtree::values::AnyValue::Categorical(3)]);
    assert!(!split.turn_left(&outlier));
    assert!(split.turn_left(&near));
}

#[test]
fn best_categorical_prefix_min_count_blocks_cut() {
    let impurities = vec![r(0.125)];
    let sizes = vec![1, 1];
    assert!(best_categorical_prefix(&impurities, &sizes, 2, 2).is_none());
}

#[test]
fn partition_routes_rows() {
    let rows = vec![
        real_row(&[1.0], 1.0),
        real_row(&[2.0], 2.0),
        real_row(&[1.2], 1.2),
    ];
    let split = Split::Real(0, r(1.5));
    let (left, right) = partition_rows(rows, &split);
    assert_eq!(left.len(), 2);
    assert_eq!(right.len(), 1);
    assert_eq!(f(left[0].label), 1.0);
    assert_eq!(f(left[1].label), 1.2);
    assert_eq!(f(right[0].label), 2.0);
}

#[test]
fn fit_accepts_split() {
    let rows = vec![real_row(&[1.0], 1.0), real_row(&[2.0], 2.0)];
    let splitter = FixedSplitter { split: Split::Real(0, r(1.5)), delta: r(0.25) };
    let params = DecisionTreeParameters::default().with_min_leaf_instances(1).with_max_depth(5);
    let mut learner = RegressionTreeLearner::new(splitter, params);
    let tree = learner.fit(rows);
    match tree {
        TrainingNode::Internal { split, left, right, delta, depth } => {
            assert_eq!(depth, 0);
            assert_eq!(f(delta), 0.25);
            match split {
                Split::Real(idx, pivot) => {
                    assert_eq!(idx, 0);
                    assert_eq!(f(pivot), 1.5);
                },
                other => panic!("expected a real split, got {other:?}"),
            }
            match *left {
                TrainingNode::Leaf { ref data, depth } => {
                    assert_eq!(depth, 1);
                    assert_eq!(data.len(), 1);
                    assert_eq!(f(data[0].label), 1.0);
                },
                _ => panic!("left child should be a leaf"),
            }
            match *right {
                TrainingNode::Leaf { ref data, depth } => {
                    assert_eq!(depth, 1);
                    assert_eq!(data.len(), 1);
                    assert_eq!(f(data[0].label), 2.0);
                },
                _ => panic!("right child should be a leaf"),
            }
        },
        other => panic!("expected an internal root, got {other:?}"),
    }
}

#[test]
fn fit_depth_zero_is_a_leaf() {
    let rows = vec![real_row(&[1.0], 1.0), real_row(&[2.0], 2.0)];
    let splitter = FixedSplitter { split: Split::Real(0, r(1.5)), delta: r(1.0) };
    let params = DecisionTreeParameters::default().with_max_depth(0).with_min_leaf_instances(1);
    let mut learner = RegressionTreeLearner::new(splitter, params);
    let tree = learner.fit(rows);
    match tree {
        TrainingNode::Leaf { data, depth } => {
            assert_eq!(depth, 0);
            assert_eq!(data.len(), 2);
        },
        _ => panic!("a depth-zero tree is a single leaf"),
    }
}

#[test]
fn fit_rejects_weak_split() {
    // The decrease only equals the configured minimum, which asks for a strict improvement.
    let rows = vec![real_row(&[1.0], 1.0), real_row(&[2.0], 2.0)];
    let splitter = FixedSplitter { split: Split::Real(0, r(1.5)), delta: r(0.0) };
    let params = DecisionTreeParameters::default().with_min_leaf_instances(1);
    let mut learner = RegressionTreeLearner::new(splitter, params);
    let tree = learner.fit(rows);
    assert!(matches!(tree, TrainingNode::Leaf { .. }));
}

#[test]
fn fit_empty_split_makes_a_leaf() {
    let rows = vec![real_row(&[1.0], 1.0), real_row(&[2.0], 2.0)];
    let splitter = FixedSplitter { split: Split::Empty, delta: r(1.0) };
    let params = DecisionTreeParameters::default().with_min_leaf_instances(1);
    let mut learner = RegressionTreeLearner::new(splitter, params);
    let tree = learner.fit(rows);
    assert!(matches!(tree, TrainingNode::Leaf { .. }));
}

#[test]
fn transform_routes_to_leaf_models() {
    let left = ModelNode::leaf(GuessTheMeanModel::new(r(1.0)), r(1.0), 1);
    let right = ModelNode::leaf(GuessTheMeanModel::new(r(2.0)), r(1.0), 1);
    let tree = ModelNode::internal(
        Split::Real(0, r(1.5)),
        Box::new(left),
        Box::new(right),
        r(2.0),
        0,
    );
    let row1 = FeatureRow::new(vec![dtree::values::AnyValue::Real(r(1.49))]);
    let row2 = FeatureRow::new(vec![dtree::values::AnyValue::Real(r(1.51))]);
    assert_eq!(f(tree.transform(&row1).mean), 1.0);
    assert_eq!(f(tree.transform(&row2).mean), 2.0);
    assert_eq!(f(tree.training_weight()), 2.0);
}

#[test]
fn transform_is_repeatable() {
    let left = ModelNode::leaf(GuessTheMeanModel::new(r(-1.0)), r(1.0), 1);
    let right = ModelNode::leaf(GuessTheMeanModel::new(r(4.0)), r(1.0), 1);
    let tree = ModelNode::internal(
        Split::Real(0, r(0.0)),
        Box::new(left),
        Box::new(right),
        r(2.0),
        0,
    );
    let row = FeatureRow::new(vec![dtree::values::AnyValue::Real(r(0.25))]);
    let first = f(tree.transform(&row).mean);
    for _ in 0..10 {
        assert_eq!(f(tree.transform(&row).mean), first);
    }
}

#[test]
fn mean_model_answers_every_row() {
    let model = GuessTheMeanModel::new(r(3.25));
    let rows = vec![
        FeatureRow::new(vec![dtree::values::AnyValue::Real(r(0.0))]),
        FeatureRow::new(vec![dtree::values::AnyValue::Real(r(9.0))]),
    ];
    let prediction = model.transform(&rows);
    let expected = prediction.expected();
    assert_eq!(expected.len(), 2);
    for v in expected {
        assert_eq!(f(v), 3.25);
    }
}

#[test]
fn fit_recurses_one_level() {
    // Four rows on one feature; the root splits at 2.5, then the left pair
    // splits again at 1.5 while the right pair's answer fails the minimum.
    let rows = vec![
        real_row(&[1.0], 1.0),
        real_row(&[2.0], 2.0),
        real_row(&[3.0], 3.0),
        real_row(&[4.0], 4.0),
    ];
    let splitter = SequenceSplitter {
        answers: vec![
            (Split::Real(0, r(2.5)), r(1.0)),
            (Split::Real(0, r(1.5)), r(0.5)),
            (Split::Empty, r(0.0)),
        ],
        next: 0,
    };
    let params = DecisionTreeParameters::default().with_min_leaf_instances(1).with_max_depth(4);
    let mut learner = RegressionTreeLearner::new(splitter, params);
    let tree = learner.fit(rows);
    match tree {
        TrainingNode::Internal { left, right, depth, .. } => {
            assert_eq!(depth, 0);
            match *left {
                TrainingNode::Internal { ref left, ref right, depth, .. } => {
                    assert_eq!(depth, 1);
                    match **left {
                        TrainingNode::Leaf { ref data, depth } => {
                            assert_eq!(depth, 2);
                            assert_eq!(data.len(), 1);
                            assert_eq!(f(data[0].label), 1.0);
                        },
                        _ => panic!("the deepest level should be leaves"),
                    }
                    match **right {
                        TrainingNode::Leaf { ref data, depth } => {
                            assert_eq!(depth, 2);
                            assert_eq!(data.len(), 1);
                            assert_eq!(f(data[0].label), 2.0);
                        },
                        _ => panic!("the deepest level should be leaves"),
                    }
                },
                _ => panic!("the left child should split again"),
            }
            match *right {
                TrainingNode::Leaf { ref data, depth } => {
                    assert_eq!(depth, 1);
                    assert_eq!(data.len(), 2);
                    assert_eq!(f(data[0].label), 3.0);
                    assert_eq!(f(data[1].label), 4.0);
                },
                _ => panic!("the right child should stay a leaf"),
            }
        },
        _ => panic!("the root should split"),
    }
}

#[test]
fn columns_read_rows_in_order() {
    let rows = vec![
        TrainingRow::new(
            FeatureRow::new(vec![
                dtree::values::AnyValue::Real(r(1.0)),
                dtree::values::AnyValue::Categorical(7),
                dtree::values::AnyValue::Real(r(2.0)),
            ]),
            r(0.0),
            None,
        ),
        TrainingRow::new(
            FeatureRow::new(vec![
                dtree::values::AnyValue::Real(r(3.0)),
                dtree::values::AnyValue::Categorical(9),
                dtree::values::AnyValue::Real(r(4.0)),
            ]),
            r(0.0),
            None,
        ),
    ];
    let first = real_column(&rows, 0);
    let second = real_column(&rows, 1);
    assert_eq!(first.iter().map(|&v| f(v)).collect::<Vec<f64>>(), vec![1.0, 3.0]);
    assert_eq!(second.iter().map(|&v| f(v)).collect::<Vec<f64>>(), vec![2.0, 4.0]);
    assert_eq!(categorical_column(&rows, 0), vec![7, 9]);
}

#[test]
fn select_prefix_reads_through_order() {
    let items = vec![10, 20, 30];
    let order = vec![2, 0, 1];
    assert_eq!(select_prefix(&items, &order, 2), vec![30, 10]);
    assert_eq!(select_prefix(&items, &order, 0), Vec::<usize>::new());
}

#[test]
fn assemble_model_mirrors_the_tree() {
    // A root split over two leaves: the assembled prediction tree keeps the
    // split and depths, hands the first sub-model to the left leaf and the
    // second to the right, and records the weights parents-first.
    let tree = TrainingNode::internal(
        Split::Real(0, r(1.5)),
        Box::new(TrainingNode::leaf(vec![real_row(&[1.0], 1.0)], 1)),
        Box::new(TrainingNode::leaf(vec![real_row(&[2.0], 2.0)], 1)),
        r(0.25),
        0,
    );
    let models = vec![GuessTheMeanModel::new(r(1.0)), GuessTheMeanModel::new(r(2.0))];
    let weights = vec![r(2.0), r(1.0), r(1.0)];
    let model_tree = assemble_model(tree, models, weights);
    match model_tree {
        ModelNode::Internal { ref split, ref left, ref right, training_weight, depth } => {
            assert_eq!(depth, 0);
            assert_eq!(f(training_weight), 2.0);
            assert!(matches!(split, Split::Real(0, p) if f(*p) == 1.5));
            match **left {
                ModelNode::Leaf { ref model, training_weight, depth } => {
                    assert_eq!(depth, 1);
                    assert_eq!(f(training_weight), 1.0);
                    assert_eq!(f(model.mean), 1.0);
                },
                _ => panic!("the left child should be a leaf"),
            }
            match **right {
                ModelNode::Leaf { ref model, .. } => assert_eq!(f(model.mean), 2.0),
                _ => panic!("the right child should be a leaf"),
            }
        },
        _ => panic!("the root should stay internal"),
    }

    // And the assembled tree routes rows like the splits say.
    let row1 = FeatureRow::new(vec![dtree::values::AnyValue::Real(r(1.0))]);
    let row2 = FeatureRow::new(vec![dtree::values::AnyValue::Real(r(2.0))]);
    assert_eq!(f(model_tree.transform(&row1).mean), 1.0);
    assert_eq!(f(model_tree.transform(&row2).mean), 2.0);
}

#[test]
fn pick_better_keeps_strict_improvements() {
    let better = pick_better((Split::Real(0, r(1.0)), r(0.5)), (Split::Empty, r(f64::INFINITY)));
    assert!(matches!(better.0, Split::Real(0, _)));
    assert_eq!(f(better.1), 0.5);

    // A NaN trial never beats the best so far.
    let kept = pick_better((Split::Real(1, r(9.9)), r(f64::NAN)), better.clone());
    assert!(matches!(kept.0, Split::Real(0, _)));
    assert_eq!(f(kept.1), 0.5);

    // Ties keep the earlier feature's split.
    let tied = pick_better((Split::Real(2, r(7.0)), r(0.5)), kept);
    assert!(matches!(tied.0, Split::Real(0, _)));
}
