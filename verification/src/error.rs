use vstd::prelude::*;

verus! {

/// The ways a pipeline stage can fail.  Decoding and encoding errors belong
/// to the callers that do the I/O; the pipeline itself produces only these.
#[derive(Clone, Copy, Debug, PartialEq, Eq, Structural)]
pub enum PreprocessError {
    /// No foreground pixel was found while cropping: the image is blank.
    EmptyContent,
    /// The configuration leaves no interior region, or the image to be
    /// scaled has zero width or height.
    InvalidDimensions,
}

} // verus!
