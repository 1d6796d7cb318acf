//! The output frame of translated coordinates.
//!
//! An anchor names the origin that raw points are translated about.  For
//! every point, `out.x = in.x - cx` and `out.y = cy - in.y` under integer
//! division: the translated frame is centered at the anchor with the Y
//! axis flipped upward.

use vstd::prelude::*;

use crate::point::spec_translate_point;
use crate::point::IVec2;
use crate::point::UVec2;
use crate::utils::center_of;
use crate::utils::sum_x;
use crate::utils::sum_y;

verus! {

/// The origin choice for translated output.
#[derive(Clone, Copy, Debug)]
pub enum Anchor {
    /// Half the stored image height and width: `Center(height, width)`.
    Center(u32, u32),
    /// Half the stored height only; the x origin stays at zero.
    VerticalCenter(u32),
    /// Half the stored width only; the y origin stays at zero.
    HorisontalCenter(u32),
    /// The centroid of each polygon itself.
    AbsoluteCenter,
}

/// The dimension pair an anchor halves, where it carries one.
pub open spec fn spec_anchor_size(a: Anchor) -> Option<UVec2> {
    match a {
        Anchor::Center(height, width) => Some(UVec2 { x: width, y: height }),
        Anchor::VerticalCenter(height) => Some(UVec2 { x: 0, y: height }),
        Anchor::HorisontalCenter(width) => Some(UVec2 { x: width, y: 0 }),
        Anchor::AbsoluteCenter => None,
    }
}

/// The translation origin an anchor gives a polygon: half its size, or the
/// polygon's own integer centroid (the origin itself for an empty polygon).
pub open spec fn spec_anchor_center(a: Anchor, polygon: Seq<UVec2>) -> (int, int) {
    match spec_anchor_size(a) {
        Some(size) => (size.x as int / 2, size.y as int / 2),
        None => if polygon.len() == 0 {
            (0, 0)
        } else {
            (sum_x(polygon) / polygon.len() as int, sum_y(polygon) / polygon.len() as int)
        },
    }
}

/// The translation law: with origin `(cx, cy)`, every point maps to
/// `(in.x - cx, cy - in.y)` under integer division semantics.
pub proof fn lemma_translation_law(p: UVec2, cx: int, cy: int)
    requires
        0 <= cx <= u32::MAX,
        0 <= cy <= u32::MAX,
    ensures
        spec_translate_point(p, cx, cy).x == p.x - cx,
        spec_translate_point(p, cx, cy).y == cy - p.y,
{
}

impl Anchor {
    /// The dimension pair this anchor halves, where it carries one.
    pub fn size(self) -> (r: Option<UVec2>)
        ensures
            r == spec_anchor_size(self),
    {
        match self {
            Anchor::Center(height, width) => Some(UVec2 { x: width, y: height }),
            Anchor::VerticalCenter(height) => Some(UVec2 { x: 0, y: height }),
            Anchor::HorisontalCenter(width) => Some(UVec2 { x: width, y: 0 }),
            Anchor::AbsoluteCenter => None,
        }
    }

    /// Translates a polygon about this anchor's origin: for every point,
    /// `out.x = in.x - cx` and `out.y = cy - in.y`.
    pub fn translate(self, polygon: &Vec<UVec2>) -> (r: Vec<IVec2>)
        ensures
            r@.len() == polygon@.len(),
            forall|i: int|
                0 <= i < polygon@.len() ==> r@[i] == spec_translate_point(
                    polygon@[i],
                    spec_anchor_center(self, polygon@).0,
                    spec_anchor_center(self, polygon@).1,
                ),
    {
        let cx: i64;
        let cy: i64;
        match self.size() {
            Some(size) => {
                cx = (size.x / 2) as i64;
                cy = (size.y / 2) as i64;
            },
            None => {
                match center_of(polygon.as_slice()) {
                    Some(c) => {
                        cx = c.x as i64;
                        cy = c.y as i64;
                    },
                    None => {
                        cx = 0;
                        cy = 0;
                    },
                }
            },
        }
        let mut out: Vec<IVec2> = Vec::new();
        let mut i: usize = 0;
        while i < polygon.len()
            invariant
                i <= polygon@.len(),
                0 <= cx <= u32::MAX,
                0 <= cy <= u32::MAX,
                cx as int == spec_anchor_center(self, polygon@).0,
                cy as int == spec_anchor_center(self, polygon@).1,
                out@.len() == i,
                forall|k: int|
                    0 <= k < i ==> out@[k] == spec_translate_point(
                        polygon@[k],
                        cx as int,
                        cy as int,
                    ),
            decreases polygon@.len() - i,
        {
            let p = polygon[i];
            out.push(IVec2 { x: p.x as i64 - cx, y: cy - p.y as i64 });
            i += 1;
        }
        out
    }

    /// Translates each polygon of a list about this anchor's origin.
    pub fn translate_polygons(self, polygons: &Vec<Vec<UVec2>>) -> (r: Vec<Vec<IVec2>>)
        ensures
            r@.len() == polygons@.len(),
            forall|i: int|
                0 <= i < polygons@.len() ==> {
                    &&& #[trigger] r@[i]@.len() == polygons@[i]@.len()
                    &&& forall|k: int|
                        0 <= k < polygons@[i]@.len() ==> r@[i]@[k] == spec_translate_point(
                            polygons@[i]@[k],
                            spec_anchor_center(self, polygons@[i]@).0,
                            spec_anchor_center(self, polygons@[i]@).1,
                        )
                },
    {
        let mut out: Vec<Vec<IVec2>> = Vec::new();
        let mut i: usize = 0;
        while i < polygons.len()
            invariant
                i <= polygons@.len(),
                out@.len() == i,
                forall|j: int|
                    0 <= j < i ==> {
                        &&& #[trigger] out@[j]@.len() == polygons@[j]@.len()
                        &&& forall|k: int|
                            0 <= k < polygons@[j]@.len() ==> out@[j]@[k] == spec_translate_point(
                                polygons@[j]@[k],
                                spec_anchor_center(self, polygons@[j]@).0,
                                spec_anchor_center(self, polygons@[j]@).1,
                            )
                    },
            decreases polygons@.len() - i,
        {
            let t = self.translate(&polygons[i]);
            out.push(t);
            i += 1;
        }
        out
    }
}

} // verus!
