use vstd::prelude::*;

verus! {

/// Possible errors that may occur during processing of a metric.
#[derive(Debug, Clone, PartialEq, Eq)]
pub enum MetricsError {
    /// An input file could not be read.
    MalformedInput { reason: &'static str },
    /// An input could be read, but is not supported by the metric.
    UnsupportedInput { reason: &'static str },
    /// Two inputs did not have matching formats or resolutions.
    InputMismatch { reason: &'static str },
    /// The two videos could not be processed.
    VideoError { reason: String },
    /// Two frames could not be handed over to be processed.
    SendError { reason: String },
    /// Two frames could not be processed.
    ProcessError { reason: String },
    /// Reserved so that matching stays open to new kinds.
    NonExhaustive,
}

} // verus!
