//! Extraction of closed polygon outlines from binary raster images.
//!
//! A [`BinImage`] is an immutable, bit-packed foreground mask built once from
//! raw sample bytes.  [`Edges`] walks the boundaries of its foreground
//! regions and returns, for every connected region (holes too), the
//! ordered list of direction-change vertices of that boundary, either raw or
//! translated into a centered, Y-up frame.

use vstd::prelude::*;

mod anchor;
mod bin_image;
mod direction;
mod error;
mod neighbors;
mod point;
mod trace;
mod utils;

pub use anchor::Anchor;
pub use bin_image::BinImage;
pub use direction::Direction;
pub use error::Error;
pub use neighbors::Neighbors;
pub use point::IVec2;
pub use point::UVec2;
pub use trace::spec_polygons;
pub use trace::EdgesIter;
pub use utils::bounding_box;
pub use utils::center_of;
pub use utils::in_polygon;

use anchor::spec_anchor_center;
use point::spec_translate_point;

verus! {

/// The view of a polygon list: each vertex vector as its sequence.
pub open spec fn polys_view(v: Seq<Vec<UVec2>>) -> Seq<Seq<UVec2>> {
    v.map_values(|p: Vec<UVec2>| p@)
}

/// The edges of one image: every boundary polygon of its foreground
/// regions, raw or translated about the image center.
pub struct Edges(pub BinImage);

impl Edges {
    /// The raw boundary polygon of every connected foreground region, in
    /// the order their seed corners are scanned.
    pub fn multi_raw(&self) -> (r: Vec<Vec<UVec2>>)
        ensures
            polys_view(r@) == spec_polygons(self.0),
    {
        let mut it = EdgesIter::new(&self.0);
        let mut out: Vec<Vec<UVec2>> = Vec::new();
        proof {
            assert(polys_view(out@) + it.remaining() =~= it.remaining());
        }
        loop
            invariant_except_break
                it.wf(),
                it.spec_index() <= it.pool_len(),
                polys_view(out@) + it.remaining() == spec_polygons(self.0),
            ensures
                polys_view(out@) == spec_polygons(self.0),
            decreases it.pool_len() - it.spec_index() + 1,
        {
            let ghost pre_rem = it.remaining();
            let ghost pre_out = out@;
            match it.next() {
                Some(poly) => {
                    proof {
                        assert(pre_rem == seq![poly@] + it.remaining());
                    }
                    out.push(poly);
                    proof {
                        assert(polys_view(out@) =~= polys_view(pre_out).push(poly@));
                        assert(polys_view(pre_out) + pre_rem =~= polys_view(out@)
                            + it.remaining());
                    }
                },
                None => {
                    proof {
                        assert(polys_view(out@) + pre_rem =~= polys_view(out@));
                    }
                    break ;
                },
            }
        }
        out
    }

    /// The raw boundary polygon of the first traced region, or `None` for
    /// an image without foreground corners.  Meant for images holding a
    /// single connected region.
    pub fn single_raw(&self) -> (r: Option<Vec<UVec2>>)
        ensures
            match r {
                None => spec_polygons(self.0).len() == 0,
                Some(p) => spec_polygons(self.0).len() > 0 && p@ == spec_polygons(self.0)[0],
            },
    {
        let mut it = EdgesIter::new(&self.0);
        let r = it.next();
        proof {
            if let Some(p) = &r {
                assert(spec_polygons(self.0)[0] == p@);
            }
        }
        r
    }

    /// Every boundary polygon, translated into the frame centered at
    /// `(width / 2, height / 2)` with the Y axis up.
    pub fn multi_translated(&self) -> (r: Vec<Vec<IVec2>>)
        ensures
            r@.len() == spec_polygons(self.0).len(),
            forall|i: int|
                0 <= i < r@.len() ==> {
                    &&& #[trigger] r@[i]@.len() == spec_polygons(self.0)[i].len()
                    &&& forall|k: int|
                        0 <= k < spec_polygons(self.0)[i].len() ==> r@[i]@[k]
                            == spec_translate_point(
                            spec_polygons(self.0)[i][k],
                            self.0.spec_width() as int / 2,
                            self.0.spec_height() as int / 2,
                        )
                },
    {
        let polys = self.multi_raw();
        let a = self.anchor();
        let r = a.translate_polygons(&polys);
        proof {
            let img = self.0;
            assert forall|i: int| 0 <= i < r@.len() implies (#[trigger] r@[i]@.len()
                == spec_polygons(img)[i].len() && forall|k: int|
                0 <= k < spec_polygons(img)[i].len() ==> r@[i]@[k] == spec_translate_point(
                    spec_polygons(img)[i][k],
                    img.spec_width() as int / 2,
                    img.spec_height() as int / 2,
                )) by {
                assert(polys_view(polys@)[i] == polys@[i]@);
                assert(polys@[i]@ == spec_polygons(img)[i]);
                assert(spec_anchor_center(a, polys@[i]@).0 == img.spec_width() as int / 2);
                assert(spec_anchor_center(a, polys@[i]@).1 == img.spec_height() as int / 2);
                assert(r@[i]@.len() == polys@[i]@.len());
                assert forall|k: int| 0 <= k < spec_polygons(img)[i].len() implies r@[i]@[k]
                    == spec_translate_point(
                    spec_polygons(img)[i][k],
                    img.spec_width() as int / 2,
                    img.spec_height() as int / 2,
                ) by {
                    assert(r@[i]@[k] == spec_translate_point(
                        polys@[i]@[k],
                        spec_anchor_center(a, polys@[i]@).0,
                        spec_anchor_center(a, polys@[i]@).1,
                    ));
                }
            }
        }
        r
    }

    /// The first traced polygon, translated into the centered, Y-up frame,
    /// or `None` for an image without foreground corners.
    pub fn single_translated(&self) -> (r: Option<Vec<IVec2>>)
        ensures
            match r {
                None => spec_polygons(self.0).len() == 0,
                Some(p) => {
                    &&& spec_polygons(self.0).len() > 0
                    &&& p@.len() == spec_polygons(self.0)[0].len()
                    &&& forall|k: int|
                        0 <= k < spec_polygons(self.0)[0].len() ==> p@[k] == spec_translate_point(
                            spec_polygons(self.0)[0][k],
                            self.0.spec_width() as int / 2,
                            self.0.spec_height() as int / 2,
                        )
                },
            },
    {
        match self.single_raw() {
            None => None,
            Some(poly) => Some(self.anchor().translate(&poly)),
        }
    }

    /// An iterator over the polygons, one `next` call each.
    pub fn iter(&self) -> (r: EdgesIter)
        ensures
            r.wf(),
            r.remaining() == spec_polygons(self.0),
    {
        EdgesIter::new(&self.0)
    }

    /// The anchor of the translated frame: the image center.
    fn anchor(&self) -> (r: Anchor)
        ensures
            r == Anchor::Center(self.0.spec_height(), self.0.spec_width()),
    {
        Anchor::Center(self.0.height(), self.0.width())
    }
}

} // verus!
