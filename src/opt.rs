use vstd::prelude::*;

use crate::write_direction::WriteDirection;

verus! {

/// The settings of a run.
#[derive(Clone, Debug, PartialEq, Eq)]
pub struct Opt {
    /// Where the sheet is written.
    pub output: String,
    /// The directory whose images are stitched.
    pub input: String,
    /// The pixel extent along the major axis; one pixel when absent.
    pub max: Option<u32>,
    /// Which axis is filled first.
    pub direction: WriteDirection,
}

impl Opt {
    /// The extent along the major axis that a run uses.
    pub fn max_extent(&self) -> (r: u32)
        ensures
            r == crate::img::max_or_default(self.max),
    {
        match self.max {
            Some(m) => m,
            None => 1,
        }
    }
}

} // verus!
