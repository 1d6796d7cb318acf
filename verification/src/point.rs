//! Plain coordinate types used throughout the library.

use vstd::prelude::*;

verus! {

/// A raw pixel coordinate: column `x` and row `y`, both non-negative.
#[derive(Clone, Copy, Debug, PartialEq, Eq, Hash, Structural)]
pub struct UVec2 {
    pub x: u32,
    pub y: u32,
}

impl UVec2 {
    pub fn new(x: u32, y: u32) -> (r: UVec2)
        ensures
            r == (UVec2 { x, y }),
    {
        UVec2 { x, y }
    }

    /// Componentwise minimum.
    pub fn min(self, other: UVec2) -> (r: UVec2)
        ensures
            r.x == if self.x <= other.x { self.x } else { other.x },
            r.y == if self.y <= other.y { self.y } else { other.y },
    {
        UVec2 {
            x: if self.x <= other.x { self.x } else { other.x },
            y: if self.y <= other.y { self.y } else { other.y },
        }
    }

    /// Componentwise maximum.
    pub fn max(self, other: UVec2) -> (r: UVec2)
        ensures
            r.x == if self.x >= other.x { self.x } else { other.x },
            r.y == if self.y >= other.y { self.y } else { other.y },
    {
        UVec2 {
            x: if self.x >= other.x { self.x } else { other.x },
            y: if self.y >= other.y { self.y } else { other.y },
        }
    }
}

/// The pure coordinate translation: `p` moved into the frame whose origin
/// is `(cx, cy)` with the Y axis flipped upward.
pub open spec fn spec_translate_point(p: UVec2, cx: int, cy: int) -> IVec2 {
    IVec2 { x: (p.x - cx) as i64, y: (cy - p.y) as i64 }
}

/// A translated point in the centered, Y-up output frame; either component
/// may be negative.
#[derive(Clone, Copy, Debug, PartialEq, Eq, Hash, Structural)]
pub struct IVec2 {
    pub x: i64,
    pub y: i64,
}

impl IVec2 {
    pub fn new(x: i64, y: i64) -> (r: IVec2)
        ensures
            r == (IVec2 { x, y }),
    {
        IVec2 { x, y }
    }
}

} // verus!
