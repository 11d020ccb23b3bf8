use vstd::prelude::*;

verus! {

/// The size of one tile: every source image is assumed to have it.
#[derive(Clone, Copy, Debug, PartialEq, Eq, Structural)]
pub struct Dimensions {
    pub x: u32,
    pub y: u32,
}

impl Dimensions {
    /// Both sides are strictly positive.
    pub open spec fn wf(self) -> bool {
        self.x > 0 && self.y > 0
    }

    /// Builds the tile size from a `(width, height)` pair; a zero side gives `None`.
    pub fn from_tuple(t: (u32, u32)) -> (r: Option<Dimensions>)
        ensures
            (t.0 > 0 && t.1 > 0) <==> r.is_some(),
            r matches Some(d) ==> d.x == t.0 && d.y == t.1 && d.wf(),
    {
        if t.0 > 0 && t.1 > 0 {
            Some(Dimensions { x: t.0, y: t.1 })
        } else {
            None
        }
    }
}

} // verus!
