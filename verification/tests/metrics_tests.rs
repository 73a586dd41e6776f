use dtree::leaf::{ClassificationLeafLearner, GuessTheMeanLearner, LeafLearner,
    LinearRegressionLearner, RegressionLeafLearner};
use dtree::metrics::{confusion_matrix, correct_count, count_of_value, Accuracy,
    ClassificationMetric, MacroF1, Precision, Recall, RegressionMetric, MAE, MSE, R2};
use dtree::pva::PVA;
use dtree::realnum::Real;

fn r(x: f64) -> Real {
    Real::from_bits(x.to_bits())
}

fn f(x: Real) -> f64 {
    f64::from_bits(x.to_bits())
}

fn diagonal_sum(counts: &Vec<Vec<usize>>) -> usize {
    (0..counts.len()).map(|i| counts[i][i]).sum()
}

#[test]
fn classification_test_confusion_matrix() {
    let y1 = vec![0, 1, 0, 1, 2, 3, 0, 1, 2, 3];
    let y2 = vec![0, 1, 4, 1, 2, 1, 0, 1, 4, 3];

    let pva_equal = PVA::new(y1.clone(), y1.clone());
    let confusion_equal = confusion_matrix(&pva_equal);
    assert!(confusion_equal.nrows() == 4); // Only 4 labels from [0..3]
    assert!(diagonal_sum(&confusion_equal.counts) == y1.len()); // Only diagonal elements present

    let pva_diff = PVA::new(y1.clone(), y2.clone());
    let confusion_diff = confusion_matrix(&pva_diff);
    assert!(confusion_diff.nrows() == 5); // Now 5 labels from [0..4]
    assert!(diagonal_sum(&confusion_diff.counts) < y1.len()); // Off diagonals -> lesser diagonal sum
}

#[test]
fn confusion_test_confusion_matrix() {
    let y1 = vec![0, 1, 0, 1, 2, 3, 0, 1, 2, 3];
    let y2 = vec![0, 1, 4, 1, 2, 1, 0, 1, 4, 3];

    let pva_equal = PVA::new(y1.clone(), y1.clone());
    let confusion_equal = confusion_matrix(&pva_equal);
    assert!(confusion_equal.nrows() == 4);
    assert!(diagonal_sum(&confusion_equal.counts) == y1.len());

    let pva_diff = PVA::new(y1.clone(), y2.clone());
    let confusion_diff = confusion_matrix(&pva_diff);
    assert!(confusion_diff.nrows() == 5);
    assert!(diagonal_sum(&confusion_diff.counts) < y1.len());
}

#[test]
fn confusion_matrix_cells() {
    let pva = PVA::new(vec![1usize, 1, 2, 2], vec![1usize, 2, 2, 2]);
    let confusion = confusion_matrix(&pva);
    assert_eq!(confusion.labels, vec![1, 2]);
    // Predicted 1: one actually 1, one actually 2. Predicted 2: two actually 2.
    assert_eq!(confusion.counts, vec![vec![1, 1], vec![0, 2]]);
}

#[test]
fn counting_helpers() {
    let pva = PVA::new(vec![1usize, 2, 3, 4], vec![1usize, 2, 0, 0]);
    assert_eq!(correct_count(&pva), 2);
    assert_eq!(count_of_value(&pva.actual, 0), 2);
    assert_eq!(count_of_value(&pva.predicted, 9), 0);
}

#[test]
fn metric_enums_carry_their_metric() {
    let c: ClassificationMetric = Accuracy::default().into();
    assert!(matches!(c, ClassificationMetric::Accuracy(_)));
    let c: ClassificationMetric = Precision::default().into();
    assert!(matches!(c, ClassificationMetric::Precision(_)));
    let c: ClassificationMetric = Recall::default().into();
    assert!(matches!(c, ClassificationMetric::Recall(_)));
    let c: ClassificationMetric = MacroF1::default().into();
    assert!(matches!(c, ClassificationMetric::MacroF1(_)));
    let m: RegressionMetric = MSE::default().into();
    assert!(matches!(m, RegressionMetric::MSE(_)));
    let m: RegressionMetric = MAE::default().into();
    assert!(matches!(m, RegressionMetric::MAE(_)));
    let m: RegressionMetric = R2::default().into();
    assert!(matches!(m, RegressionMetric::R2(_)));
}

#[test]
fn leaf_learner_constructors() {
    let mean = GuessTheMeanLearner::default();
    assert!(matches!(LeafLearner::mean(mean), LeafLearner::GuessTheMean { .. }));
    assert!(matches!(
        RegressionLeafLearner::mean(mean),
        RegressionLeafLearner::GuessTheMean { .. }
    ));
    assert!(matches!(
        ClassificationLeafLearner::mean(mean),
        ClassificationLeafLearner::GuessTheMean { .. }
    ));

    let linreg = LinearRegressionLearner::new(true, Some(r(0.5)));
    assert_eq!(f(linreg.alpha), 0.5);
    assert!(linreg.fit_intercept);
    assert!(matches!(
        LeafLearner::linreg(linreg),
        LeafLearner::LinearRegression { .. }
    ));
    assert!(matches!(
        RegressionLeafLearner::linreg(linreg),
        RegressionLeafLearner::LinearRegression { .. }
    ));
}

#[test]
fn linear_learner_clamps_alpha() {
    assert_eq!(f(LinearRegressionLearner::new(false, None).alpha), 0.0);
    assert_eq!(f(LinearRegressionLearner::new(false, Some(r(-2.0))).alpha), 0.0);
    assert_eq!(f(LinearRegressionLearner::new(false, Some(r(f64::NAN))).alpha), 0.0);
    assert_eq!(f(LinearRegressionLearner::new(false, Some(r(3.0))).alpha), 3.0);
}
