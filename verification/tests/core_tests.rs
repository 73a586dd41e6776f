use dtree::encoder::CategoricalEncoder;
use dtree::error::ModelingError;
use dtree::parameters::DecisionTreeParameters;
use dtree::pva::PVA;
use dtree::realnum::Real;
use dtree::row::{FeatureRow, TrainingRow};
use dtree::values::AnyValue;

fn r(x: f64) -> Real {
    Real::from_bits(x.to_bits())
}

fn f(x: Real) -> f64 {
    f64::from_bits(x.to_bits())
}

#[test]
fn test_types() {
    assert!(AnyValue::Real(r(1.0)).is_real());
    assert!(AnyValue::Categorical(3).is_categorcial());

    let x = AnyValue::Real(r(1.0));
    assert!(x.as_categorical().is_none());

    let y = AnyValue::Categorical(5);
    assert!(y.as_real().is_none());
}

#[test]
fn data_test_feature_indices() {
    let mut features: Vec<AnyValue> = vec![
        AnyValue::Real(r(1.0)),
        AnyValue::Real(r(2.0)),
        AnyValue::Real(r(3.0)),
    ];
    features.extend(vec![
        AnyValue::Categorical(1),
        AnyValue::Categorical(2),
        AnyValue::Categorical(3),
    ]);

    assert!(features[2].is_real());
    assert!(features[3].is_categorcial());
}

#[test]
fn row_test_feature_indices() {
    let mut data: Vec<AnyValue> = vec![
        AnyValue::Real(r(1.0)),
        AnyValue::Real(r(2.0)),
        AnyValue::Real(r(3.0)),
    ];
    data.extend(vec![
        AnyValue::Categorical(1),
        AnyValue::Categorical(2),
        AnyValue::Categorical(3),
    ]);
    let features = FeatureRow::new(data);

    assert!(features.real_indices() == vec![0, 1, 2]);
    assert!(features.categorical_indices() == vec![3, 4, 5]);
}

#[test]
fn row_value_access() {
    let features = FeatureRow::new(vec![
        AnyValue::Categorical(7),
        AnyValue::Real(r(1.5)),
        AnyValue::Real(r(-2.0)),
        AnyValue::Categorical(9),
    ]);
    assert_eq!(features.num_features(), 4);
    assert_eq!(features.num_reals(), 2);
    assert_eq!(features.num_categoricals(), 2);
    assert_eq!(f(features.real_at(0)), 1.5);
    assert_eq!(f(features.real_at(1)), -2.0);
    assert_eq!(features.categorical_at(0), 7);
    assert_eq!(features.categorical_at(1), 9);
}

#[test]
fn row_default_weight() {
    let features = FeatureRow::new(vec![AnyValue::Real(r(1.0))]);
    let row: TrainingRow<Real> = TrainingRow::new(features.clone(), r(2.0), None);
    assert_eq!(f(row.weight), 1.0);
    let weighted: TrainingRow<Real> = TrainingRow::new(features, r(2.0), Some(r(0.25)));
    assert_eq!(f(weighted.weight), 0.25);
}

#[test]
fn encoding_round_trip() {
    let values = vec!["dog", "cat", "pig"];
    let encoder = CategoricalEncoder::new(&values);

    // Encoding unknown value should return zero
    assert_eq!(encoder.encode(&"chicken"), 0);
    assert_eq!(encoder.encode(&"mew"), 0);

    // Test round trip
    for (i, val) in values.iter().enumerate() {
        let code = i + 1;
        let e = encoder.encode(val);
        assert_eq!(e, code);

        let d = encoder.decode(code).unwrap();
        assert_eq!(val, d);
    }
}

#[test]
fn encoding_repeated_values() {
    let values = vec![4usize, 7, 4, 9, 7];
    let encoder = CategoricalEncoder::new(&values);
    assert_eq!(encoder.encode(&4), 1);
    assert_eq!(encoder.encode(&7), 2);
    assert_eq!(encoder.encode(&9), 3);
    assert_eq!(encoder.encode(&5), 0);
    assert_eq!(encoder.decode(0), None);
    assert_eq!(encoder.decode(4), None);
    assert_eq!(encoder.decode(3), Some(&9));
}

#[test]
fn pva_iteration() {
    let pva = PVA::new(vec![1usize, 2, 3], vec![1usize, 5, 3]);
    assert_eq!(pva.len(), 3);
    assert!(!pva.is_empty());

    let mut it = pva.iter();
    assert_eq!(it.next(), Some((&1usize, &1usize)));
    assert_eq!(it.next(), Some((&2usize, &5usize)));
    assert_eq!(it.next(), Some((&3usize, &3usize)));
    assert_eq!(it.next(), None);
    assert_eq!(it.next(), None);
}

#[test]
fn pva_empty() {
    let pva: PVA<usize> = PVA::new(vec![], vec![]);
    assert_eq!(pva.len(), 0);
    assert!(pva.is_empty());
    assert_eq!(pva.iter().next(), None);
}

#[test]
fn parameter_builders() {
    let params = DecisionTreeParameters::default();
    assert_eq!(params.max_depth, 30);
    assert_eq!(params.num_features, usize::MAX);
    assert_eq!(params.min_leaf_instances, 2);
    assert_eq!(f(params.min_impurity_decrease), 0.0);

    let params = params
        .with_max_depth(4)
        .with_num_features(2)
        .with_min_leaf_instances(1)
        .with_min_impurity_decrease(r(0.5));
    assert_eq!(params.max_depth, 4);
    assert_eq!(params.num_features, 2);
    assert_eq!(params.min_leaf_instances, 1);
    assert_eq!(f(params.min_impurity_decrease), 0.5);
}

#[test]
fn error_kinds() {
    let e = ModelingError::FitError(String::from("no fit"));
    assert_eq!(e.kind_name(), "FitError");
    assert_eq!(e.message(), "no fit");
    let e = ModelingError::SolutionError(String::from("singular"));
    assert_eq!(e.kind_name(), "SolutionError");
    let e = ModelingError::Generic(String::from("other"));
    assert_eq!(e.kind_name(), "GenericError");
}

#[test]
fn real_order_matches_doubles() {
    let samples = [
        -f64::INFINITY,
        -3.5,
        -1.0,
        -0.0,
        0.0,
        1.0e-300,
        1.0,
        2.5,
        1.0e300,
        f64::INFINITY,
        f64::NAN,
    ];
    for &a in samples.iter() {
        for &b in samples.iter() {
            assert_eq!(r(a).le(&r(b)), a <= b, "le mismatch for {a} {b}");
            assert_eq!(r(a).lt(&r(b)), a < b, "lt mismatch for {a} {b}");
            assert_eq!(r(a).eq_value(&r(b)), a == b, "eq mismatch for {a} {b}");
        }
    }
}

#[test]
fn real_nan_detection() {
    assert!(r(f64::NAN).is_nan());
    assert!(!r(0.0).is_nan());
    assert!(!r(f64::INFINITY).is_nan());
    assert!(!r(-f64::INFINITY).is_nan());
}
