use vstd::prelude::*;

use crate::realnum::{is_nan_bits, key_of, Real};
use crate::row::FeatureRow;

verus! {

/// A learner whose model answers every row with the weighted mean of the
/// training labels (for real labels) or the heaviest label (for categorical
/// labels). Computing that mean takes floating-point arithmetic, so fitting
/// belongs to the caller that owns it; the model type lives here.
#[derive(Clone, Copy, Debug, Default)]
pub struct GuessTheMeanLearner {}

/// A model produced by a GuessTheMean learner: it holds one answer and gives it
/// to every row.
#[derive(Clone, Copy, Debug)]
pub struct GuessTheMeanModel<T> {
    pub mean: T,
}

impl<T: Copy> GuessTheMeanModel<T> {
    /// A model that always answers with the given value.
    pub fn new(mean: T) -> (r: GuessTheMeanModel<T>)
        ensures
            r.mean == mean,
    {
        GuessTheMeanModel { mean }
    }

    /// Answer every input row with the stored mean.
    pub fn transform(&self, inputs: &Vec<FeatureRow>) -> (r: GuessTheMeanPrediction<T>)
        ensures
            r.result@.len() == inputs@.len(),
            forall|i: int| 0 <= i < r.result@.len() ==> r.result@[i] == self.mean,
    {
        let n = inputs.len();
        let mut result: Vec<T> = Vec::new();
        let mut i: usize = 0;
        while i < n
            invariant
                i <= n,
                result@.len() == i,
                forall|k: int| 0 <= k < i ==> result@[k] == self.mean,
            decreases n - i,
        {
            result.push(self.mean);
            i = i + 1;
        }
        GuessTheMeanPrediction { result }
    }
}

/// A prediction result for a GuessTheMean learner.
#[derive(Clone, Debug)]
pub struct GuessTheMeanPrediction<T> {
    pub result: Vec<T>,
}

impl<T: Copy> GuessTheMeanPrediction<T> {
    /// The predicted values, in row order.
    pub fn expected(&self) -> (r: Vec<T>)
        ensures
            r@ == self.result@,
    {
        let n = self.result.len();
        let mut out: Vec<T> = Vec::new();
        let mut i: usize = 0;
        while i < n
            invariant
                i <= n,
                n == self.result.len(),
                out@ == self.result@.take(i as int),
            decreases n - i,
        {
            proof {
                assert(self.result@.take(i + 1) =~= self.result@.take(i as int).push(
                    self.result@[i as int],
                ));
            }
            out.push(self.result[i]);
            i = i + 1;
        }
        proof {
            assert(self.result@.take(n as int) =~= self.result@);
        }
        out
    }
}

/// A learner whose model answers with a fitted linear function of the real
/// features. Solving the weighted normal equations takes floating-point linear
/// algebra, so fitting belongs to the caller that owns it; the configuration and
/// model types live here.
#[derive(Clone, Copy, Debug)]
pub struct LinearRegressionLearner {
    pub fit_intercept: bool,
    pub alpha: Real,
}

impl LinearRegressionLearner {
    /// A linear learner; a missing or non-positive regularisation strength is
    /// clamped to zero, as is a NaN one.
    pub fn new(fit_intercept: bool, alpha: Option<Real>) -> (r: LinearRegressionLearner)
        ensures
            r.fit_intercept == fit_intercept,
            r.alpha.bits == match alpha {
                Some(a) => if !is_nan_bits(a.bits) && key_of(a.bits) > 0 {
                    a.bits
                } else {
                    0u64
                },
                None => 0u64,
            },
    {
        let z = Real::zero();
        let alpha = match alpha {
            Some(a) => if z.lt(&a) {
                a
            } else {
                z
            },
            None => z,
        };
        LinearRegressionLearner { fit_intercept, alpha }
    }
}

/// A fitted linear model: an intercept, one coefficient per used feature, and
/// the real-feature indices the coefficients belong to.
#[derive(Clone, Debug)]
pub struct LinearRegessionModel {
    pub intercept: Real,
    pub coeffs: Vec<Real>,
    pub indices: Vec<usize>,
}

/// A prediction result for a linear regression learner.
#[derive(Clone, Debug)]
pub struct LinearRegressionPrediction {
    pub result: Vec<Real>,
}

impl LinearRegressionPrediction {
    /// The predicted values, in row order.
    pub fn expected(&self) -> (r: Vec<Real>)
        ensures
            r@ == self.result@,
    {
        let n = self.result.len();
        let mut out: Vec<Real> = Vec::new();
        let mut i: usize = 0;
        while i < n
            invariant
                i <= n,
                n == self.result.len(),
                out@ == self.result@.take(i as int),
            decreases n - i,
        {
            proof {
                assert(self.result@.take(i + 1) =~= self.result@.take(i as int).push(
                    self.result@[i as int],
                ));
            }
            out.push(self.result[i]);
            i = i + 1;
        }
        proof {
            assert(self.result@.take(n as int) =~= self.result@);
        }
        out
    }
}

/// The closed set of sub-model strategies a regression tree can fit at a leaf.
#[derive(Clone, Copy, Debug)]
pub enum LeafLearner {
    GuessTheMean { learner: GuessTheMeanLearner },
    LinearRegression { learner: LinearRegressionLearner },
}

impl LeafLearner {
    /// The strategy that predicts the weighted mean label.
    pub fn mean(learner: GuessTheMeanLearner) -> (r: LeafLearner)
        ensures
            r == (LeafLearner::GuessTheMean { learner }),
    {
        LeafLearner::GuessTheMean { learner }
    }

    /// The strategy that fits a linear model.
    pub fn linreg(learner: LinearRegressionLearner) -> (r: LeafLearner)
        ensures
            r == (LeafLearner::LinearRegression { learner }),
    {
        LeafLearner::LinearRegression { learner }
    }
}

/// The closed set of sub-model strategies for real-valued leaves.
#[derive(Clone, Copy, Debug)]
pub enum RegressionLeafLearner {
    GuessTheMean { learner: GuessTheMeanLearner },
    LinearRegression { learner: LinearRegressionLearner },
}

impl RegressionLeafLearner {
    /// The strategy that predicts the weighted mean label.
    pub fn mean(learner: GuessTheMeanLearner) -> (r: RegressionLeafLearner)
        ensures
            r == (RegressionLeafLearner::GuessTheMean { learner }),
    {
        RegressionLeafLearner::GuessTheMean { learner }
    }

    /// The strategy that fits a linear model.
    pub fn linreg(learner: LinearRegressionLearner) -> (r: RegressionLeafLearner)
        ensures
            r == (RegressionLeafLearner::LinearRegression { learner }),
    {
        RegressionLeafLearner::LinearRegression { learner }
    }
}

/// The closed set of sub-model strategies for categorical leaves.
#[derive(Clone, Copy, Debug)]
pub enum ClassificationLeafLearner {
    GuessTheMean { learner: GuessTheMeanLearner },
}

impl ClassificationLeafLearner {
    /// The strategy that predicts the heaviest label.
    pub fn mean(learner: GuessTheMeanLearner) -> (r: ClassificationLeafLearner)
        ensures
            r == (ClassificationLeafLearner::GuessTheMean { learner }),
    {
        ClassificationLeafLearner::GuessTheMean { learner }
    }
}

/// What a prediction can answer: the expected values, and optionally how unsure
/// the model is of each.
pub trait Prediction<T> {
    /// The predicted values, in row order.
    fn expected(&self) -> Vec<T>;

    /// The uncertainty of each prediction, where the model can say.
    fn uncertainty(&self) -> (r: Option<Vec<T>>) {
        None
    }
}

} // verus!
