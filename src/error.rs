use vstd::prelude::*;

verus! {

/// The ways a step of the pipeline can fail.
#[derive(Clone, Copy, Debug, PartialEq, Eq, Structural)]
pub enum PipelineError {
    /// A preprocessing target size has a zero component.
    InvalidGeometry,
    /// The bytes of a serialized network could not be loaded.
    ModelLoadError,
    /// The runtime rejected an input or its output did not fit the model's labels.
    InferenceError,
    /// The softmax denominator vanished.
    DegenerateDistribution,
}

} // verus!
