use vstd::prelude::*;

verus! {

/// The ways a stitching run can fail.
#[derive(Clone, Copy, Debug, PartialEq, Eq, Structural)]
pub enum StitchError {
    /// No decodable image was found.
    EmptyInput,
    /// The first image has no pixels, so there is no tile size.
    EmptyImage,
    /// A source image differs in size from the first one.
    DimensionMismatch,
    /// A side of the canvas, or its pixel count, does not fit the machine's integers.
    CanvasTooLarge,
}

} // verus!
