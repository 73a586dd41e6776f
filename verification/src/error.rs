use vstd::prelude::*;

verus! {

/// Everything that can go wrong while fitting or applying a model. Each variant
/// carries a message for the caller.
#[derive(Clone, Debug)]
pub enum ModelingError {
    FitError(String),
    PredictError(String),
    TransformError(String),
    SolutionError(String),
    Generic(String),
}

impl ModelingError {
    /// The name of this error's kind.
    pub fn kind_name(&self) -> (r: &'static str)
        ensures
            r@ == match *self {
                ModelingError::FitError(_) => "FitError"@,
                ModelingError::PredictError(_) => "PredictError"@,
                ModelingError::TransformError(_) => "TransformError"@,
                ModelingError::SolutionError(_) => "SolutionError"@,
                ModelingError::Generic(_) => "GenericError"@,
            },
    {
        match self {
            ModelingError::FitError(_) => "FitError",
            ModelingError::PredictError(_) => "PredictError",
            ModelingError::TransformError(_) => "TransformError",
            ModelingError::SolutionError(_) => "SolutionError",
            ModelingError::Generic(_) => "GenericError",
        }
    }

    /// The message this error carries.
    pub fn message(&self) -> (r: &String)
        ensures
            *r == match *self {
                ModelingError::FitError(m) => m,
                ModelingError::PredictError(m) => m,
                ModelingError::TransformError(m) => m,
                ModelingError::SolutionError(m) => m,
                ModelingError::Generic(m) => m,
            },
    {
        match self {
            ModelingError::FitError(m) => m,
            ModelingError::PredictError(m) => m,
            ModelingError::TransformError(m) => m,
            ModelingError::SolutionError(m) => m,
            ModelingError::Generic(m) => m,
        }
    }
}

} // verus!
