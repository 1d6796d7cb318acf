//! Neighbor masks and the CORNER / INTERIOR classification.
//!
//! The eight pixels around `(x, y)` are summarised in one byte, a flag per
//! compass direction.  North is the `y + 1` row, so the mask lives in the
//! same Y-up frame as the translated output.  Off-grid neighbors read as
//! background (closed boundary semantics).

use vstd::prelude::*;

use crate::bin_image::BinImage;
use crate::point::UVec2;

verus! {

/// Neighbor flag for 8-connectivity pixel access: the pixel at `(x, y + 1)`.
pub const NORTH: u8 = 0x80;

/// The pixel at `(x, y - 1)`.
pub const SOUTH: u8 = 0x40;

/// The pixel at `(x + 1, y)`.
pub const EAST: u8 = 0x20;

/// The pixel at `(x - 1, y)`.
pub const WEST: u8 = 0x10;

/// The pixel at `(x + 1, y + 1)`.
pub const NORTHEAST: u8 = 0x08;

/// The pixel at `(x - 1, y + 1)`.
pub const NORTHWEST: u8 = 0x04;

/// The pixel at `(x + 1, y - 1)`.
pub const SOUTHEAST: u8 = 0x02;

/// The pixel at `(x - 1, y - 1)`.
pub const SOUTHWEST: u8 = 0x01;

/// Whether the single-bit flag `b` is set in mask `m`.
pub open spec fn has_flag(m: u8, b: u8) -> bool {
    m & b != 0
}

/// `v` when `b` holds, otherwise no flag.
pub open spec fn flag(b: bool, v: u8) -> u8 {
    if b {
        v
    } else {
        0u8
    }
}

/// The neighbor mask of `(x, y)`: one flag per compass-adjacent foreground
/// pixel, with off-grid neighbors reading as background.
pub open spec fn spec_neighbors(img: BinImage, x: int, y: int) -> u8 {
    flag(img.px(x, y + 1), NORTH) | flag(img.px(x, y - 1), SOUTH) | flag(img.px(x + 1, y), EAST)
        | flag(img.px(x - 1, y), WEST) | flag(img.px(x + 1, y + 1), NORTHEAST) | flag(
        img.px(x - 1, y + 1),
        NORTHWEST,
    ) | flag(img.px(x + 1, y - 1), SOUTHEAST) | flag(img.px(x - 1, y - 1), SOUTHWEST)
}

/// A byte assembled from one optional flag per compass position decomposes
/// back into exactly those flags.
proof fn lemma_flag_bits(t1: u8, t2: u8, t3: u8, t4: u8, t5: u8, t6: u8, t7: u8, t8: u8, m: u8)
    by (bit_vector)
    requires
        m == t1 | t2 | t3 | t4 | t5 | t6 | t7 | t8,
        t1 == 0 || t1 == 0x80,
        t2 == 0 || t2 == 0x40,
        t3 == 0 || t3 == 0x20,
        t4 == 0 || t4 == 0x10,
        t5 == 0 || t5 == 0x08,
        t6 == 0 || t6 == 0x04,
        t7 == 0 || t7 == 0x02,
        t8 == 0 || t8 == 0x01,
    ensures
        (m & 0x80u8 != 0) == (t1 == 0x80),
        (m & 0x40u8 != 0) == (t2 == 0x40),
        (m & 0x20u8 != 0) == (t3 == 0x20),
        (m & 0x10u8 != 0) == (t4 == 0x10),
        (m & 0x08u8 != 0) == (t5 == 0x08),
        (m & 0x04u8 != 0) == (t6 == 0x04),
        (m & 0x02u8 != 0) == (t7 == 0x02),
        (m & 0x01u8 != 0) == (t8 == 0x01),
        (m == 0) == (t1 == 0 && t2 == 0 && t3 == 0 && t4 == 0 && t5 == 0 && t6 == 0 && t7 == 0
            && t8 == 0),
        (m == 255) == (t1 == 0x80 && t2 == 0x40 && t3 == 0x20 && t4 == 0x10 && t5 == 0x08 && t6
            == 0x04 && t7 == 0x02 && t8 == 0x01),
{
}

/// Reads each compass flag of `spec_neighbors` back as the underlying pixel,
/// and characterises the empty and the full mask.
pub proof fn lemma_neighbors_bits(img: BinImage, x: int, y: int)
    ensures
        has_flag(spec_neighbors(img, x, y), NORTH) == img.px(x, y + 1),
        has_flag(spec_neighbors(img, x, y), SOUTH) == img.px(x, y - 1),
        has_flag(spec_neighbors(img, x, y), EAST) == img.px(x + 1, y),
        has_flag(spec_neighbors(img, x, y), WEST) == img.px(x - 1, y),
        has_flag(spec_neighbors(img, x, y), NORTHEAST) == img.px(x + 1, y + 1),
        has_flag(spec_neighbors(img, x, y), NORTHWEST) == img.px(x - 1, y + 1),
        has_flag(spec_neighbors(img, x, y), SOUTHEAST) == img.px(x + 1, y - 1),
        has_flag(spec_neighbors(img, x, y), SOUTHWEST) == img.px(x - 1, y - 1),
        (spec_neighbors(img, x, y) == 0) == (!img.px(x, y + 1) && !img.px(x, y - 1) && !img.px(
            x + 1,
            y,
        ) && !img.px(x - 1, y) && !img.px(x + 1, y + 1) && !img.px(x - 1, y + 1) && !img.px(
            x + 1,
            y - 1,
        ) && !img.px(x - 1, y - 1)),
{
    lemma_flag_bits(
        flag(img.px(x, y + 1), NORTH),
        flag(img.px(x, y - 1), SOUTH),
        flag(img.px(x + 1, y), EAST),
        flag(img.px(x - 1, y), WEST),
        flag(img.px(x + 1, y + 1), NORTHEAST),
        flag(img.px(x - 1, y + 1), NORTHWEST),
        flag(img.px(x + 1, y - 1), SOUTHEAST),
        flag(img.px(x - 1, y - 1), SOUTHWEST),
        spec_neighbors(img, x, y),
    );
}

/// The geometric INTERIOR rule: the boundary runs straight through the
/// pixel, so it is not a direction-change vertex.  That is the case when
/// the pixel is fully surrounded, when it sits on a one-pixel line
/// (opposite cardinal pair on and the crossing pair off, or exactly one
/// opposite diagonal pair on), or when one whole side is solid: the three
/// neighbors of that side together with both cardinals along it, the
/// opposite cardinal off.  Every other mask bends the boundary and is
/// classified CORNER, the empty mask of an isolated pixel among them.
pub open spec fn spec_is_interior(m: u8) -> bool {
    ||| m == 255u8
    ||| (has_flag(m, NORTH) && has_flag(m, SOUTH) && !has_flag(m, EAST) && !has_flag(m, WEST))
    ||| (has_flag(m, EAST) && has_flag(m, WEST) && !has_flag(m, NORTH) && !has_flag(m, SOUTH))
    ||| (!has_flag(m, NORTH) && !has_flag(m, SOUTH) && !has_flag(m, EAST) && !has_flag(m, WEST) && has_flag(m, NORTHEAST)
        && has_flag(m, SOUTHWEST) && !has_flag(m, NORTHWEST) && !has_flag(m, SOUTHEAST))
    ||| (!has_flag(m, NORTH) && !has_flag(m, SOUTH) && !has_flag(m, EAST) && !has_flag(m, WEST) && has_flag(m, NORTHWEST)
        && has_flag(m, SOUTHEAST) && !has_flag(m, NORTHEAST) && !has_flag(m, SOUTHWEST))
    ||| (has_flag(m, NORTH) && has_flag(m, EAST) && has_flag(m, WEST) && has_flag(m, NORTHEAST) && has_flag(m, NORTHWEST)
        && !has_flag(m, SOUTH))
    ||| (has_flag(m, SOUTH) && has_flag(m, EAST) && has_flag(m, WEST) && has_flag(m, SOUTHEAST) && has_flag(m, SOUTHWEST)
        && !has_flag(m, NORTH))
    ||| (has_flag(m, NORTH) && has_flag(m, SOUTH) && has_flag(m, WEST) && has_flag(m, NORTHWEST) && has_flag(m, SOUTHWEST)
        && !has_flag(m, EAST))
    ||| (has_flag(m, NORTH) && has_flag(m, SOUTH) && has_flag(m, EAST) && has_flag(m, NORTHEAST) && has_flag(m, SOUTHEAST)
        && !has_flag(m, WEST))
}

/// A mask marks a direction-change vertex iff it is not INTERIOR.
pub open spec fn spec_is_corner(m: u8) -> bool {
    !spec_is_interior(m)
}

/// Classification totality: every mask in `[1, 254]` is classified as
/// exactly one of CORNER and INTERIOR.  The empty mask, which occurs only
/// for an isolated pixel, is CORNER by convention; the full mask of a
/// deep-interior pixel is INTERIOR.
pub proof fn lemma_classification_total(m: u8)
    ensures
        spec_is_corner(m) == !spec_is_interior(m),
        spec_is_corner(0u8),
        spec_is_interior(255u8),
{
    assert(0u8 & 0x80u8 == 0 && 0u8 & 0x40u8 == 0 && 0u8 & 0x20u8 == 0 && 0u8 & 0x10u8 == 0
        && 0u8 & 0x08u8 == 0 && 0u8 & 0x04u8 == 0 && 0u8 & 0x02u8 == 0 && 0u8 & 0x01u8 == 0)
        by (bit_vector);
}

/// The 8-connectivity neighbor mask of one pixel.
#[derive(Clone, Copy, Debug, PartialEq, Eq, Structural)]
pub struct Neighbors(pub u8);

impl Neighbors {
    /// The raw flag byte.
    pub fn bits(self) -> (r: u8)
        ensures
            r == self.0,
    {
        self.0
    }

    /// Whether every flag of `other` is set in this mask.
    pub fn contains(self, other: u8) -> (r: bool)
        ensures
            r == (self.0 & other == other),
    {
        self.0 & other == other
    }

    /// Gathers the neighbor mask of `(x, y)` from the image, off-grid
    /// neighbors reading as background.
    pub fn from_image(image: &BinImage, x: u32, y: u32) -> (r: Neighbors)
        ensures
            r.0 == spec_neighbors(*image, x as int, y as int),
    {
        let t1: u8 = if y < u32::MAX && image.get(UVec2::new(x, y + 1)) {
            NORTH
        } else {
            0
        };
        let t2: u8 = if y > 0 && image.get(UVec2::new(x, y - 1)) {
            SOUTH
        } else {
            0
        };
        let t3: u8 = if x < u32::MAX && image.get(UVec2::new(x + 1, y)) {
            EAST
        } else {
            0
        };
        let t4: u8 = if x > 0 && image.get(UVec2::new(x - 1, y)) {
            WEST
        } else {
            0
        };
        let t5: u8 = if x < u32::MAX && y < u32::MAX && image.get(UVec2::new(x + 1, y + 1)) {
            NORTHEAST
        } else {
            0
        };
        let t6: u8 = if x > 0 && y < u32::MAX && image.get(UVec2::new(x - 1, y + 1)) {
            NORTHWEST
        } else {
            0
        };
        let t7: u8 = if x < u32::MAX && y > 0 && image.get(UVec2::new(x + 1, y - 1)) {
            SOUTHEAST
        } else {
            0
        };
        let t8: u8 = if x > 0 && y > 0 && image.get(UVec2::new(x - 1, y - 1)) {
            SOUTHWEST
        } else {
            0
        };
        Neighbors(t1 | t2 | t3 | t4 | t5 | t6 | t7 | t8)
    }

    /// Whether this mask marks a direction-change vertex.
    pub fn is_corner(self) -> (r: bool)
        ensures
            r == spec_is_corner(self.0),
    {
        let m = self.0;
        let interior = m == 255u8 || (m & NORTH != 0 && m & SOUTH != 0 && m & EAST == 0 && m & WEST
            == 0) || (m & EAST != 0 && m & WEST != 0 && m & NORTH == 0 && m & SOUTH == 0) || (m
            & NORTH == 0 && m & SOUTH == 0 && m & EAST == 0 && m & WEST == 0 && m & NORTHEAST != 0
            && m & SOUTHWEST != 0 && m & NORTHWEST == 0 && m & SOUTHEAST == 0) || (m & NORTH == 0
            && m & SOUTH == 0 && m & EAST == 0 && m & WEST == 0 && m & NORTHWEST != 0 && m
            & SOUTHEAST != 0 && m & NORTHEAST == 0 && m & SOUTHWEST == 0) || (m & NORTH != 0 && m
            & EAST != 0 && m & WEST != 0 && m & NORTHEAST != 0 && m & NORTHWEST != 0 && m & SOUTH
            == 0) || (m & SOUTH != 0 && m & EAST != 0 && m & WEST != 0 && m & SOUTHEAST != 0 && m
            & SOUTHWEST != 0 && m & NORTH == 0) || (m & NORTH != 0 && m & SOUTH != 0 && m & WEST
            != 0 && m & NORTHWEST != 0 && m & SOUTHWEST != 0 && m & EAST == 0) || (m & NORTH != 0
            && m & SOUTH != 0 && m & EAST != 0 && m & NORTHEAST != 0 && m & SOUTHEAST != 0 && m
            & WEST == 0);
        !interior
    }
}

} // verus!
