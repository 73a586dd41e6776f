use vstd::prelude::*;

use crate::realnum::Real;

verus! {

/// A single feature value: either a real number or a categorical code.
#[derive(Clone, Copy, Debug)]
pub enum AnyValue {
    Real(Real),
    Categorical(usize),
}

impl AnyValue {
    /// The real held by this value, if it holds one.
    pub fn as_real(&self) -> (r: Option<Real>)
        ensures
            r == match *self {
                AnyValue::Real(x) => Some(x),
                AnyValue::Categorical(_) => None::<Real>,
            },
    {
        if let AnyValue::Real(x) = self {
            Some(*x)
        } else {
            None
        }
    }

    /// The categorical code held by this value, if it holds one.
    pub fn as_categorical(&self) -> (r: Option<usize>)
        ensures
            r == match *self {
                AnyValue::Categorical(x) => Some(x),
                AnyValue::Real(_) => None::<usize>,
            },
    {
        if let AnyValue::Categorical(x) = self {
            Some(*x)
        } else {
            None
        }
    }

    /// Whether this value is a real.
    pub fn is_real(&self) -> (r: bool)
        ensures
            r == (*self is Real),
    {
        matches!(self, AnyValue::Real(_))
    }

    /// Whether this value is a categorical code.
    pub fn is_categorcial(&self) -> (r: bool)
        ensures
            r == (*self is Categorical),
    {
        matches!(self, AnyValue::Categorical(_))
    }
}

} // verus!
