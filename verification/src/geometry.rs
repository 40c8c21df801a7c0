use vstd::prelude::*;

verus! {

/// An axis-aligned bounding rectangle in map coordinates.
///
/// Coordinates are integers; `x1 <= x2` and `y1 <= y2` are not required, but
/// an empty rectangle (with `x1 > x2` or `y1 > y2`) intersects nothing.
#[derive(Clone, Copy, PartialEq, Eq, Structural, Debug)]
pub struct BBox {
    pub x1: i64,
    pub y1: i64,
    pub x2: i64,
    pub y2: i64,
}

impl BBox {
    /// Two closed rectangles overlap exactly when their projections overlap
    /// on both axes.
    pub open spec fn intersects_spec(self, other: BBox) -> bool {
        &&& self.x1 <= other.x2
        &&& other.x1 <= self.x2
        &&& self.y1 <= other.y2
        &&& other.y1 <= self.y2
    }

    pub fn intersects(&self, other: &BBox) -> (r: bool)
        ensures
            r == self.intersects_spec(*other),
    {
        self.x1 <= other.x2 && other.x1 <= self.x2 && self.y1 <= other.y2 && other.y1 <= self.y2
    }
}

} // verus!
