use vstd::prelude::*;

verus! {

/// Which axis is filled first.
#[derive(Clone, Copy, Debug, PartialEq, Eq, Structural)]
pub enum WriteDirection {
    /// Rows first: the major axis is the width.
    X,
    /// Columns first: the major axis is the height.
    Y,
}

} // verus!
