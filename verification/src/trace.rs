//! The contour tracer: corner discovery and Moore-neighbor boundary walking.
//!
//! Extraction scans the grid row by row for direction-change vertices and
//! repeatedly seeds a boundary walk at the first unclaimed one.  A walk
//! steps one pixel at a time as the direction state machine decides,
//! records the corner pixels it passes, and closes when it returns to its
//! seed.  Every pixel the walk visited claims the matching candidates, so
//! one boundary is traced once; candidates on a yet-untouched boundary — a
//! hole's inner ring among them — stay in the pool and seed their own walk.
//!
//! A walk is fuel-bounded by the pixel count.  On a mask without usable
//! geometry (empty or full), on a step that leaves the foreground, or when
//! the fuel is spent, the walk closes with the vertices gathered so far;
//! on well-formed boundaries none of these cases occurs.
//!
//! A stored polygon holds its direction-change vertices in walk order.
//! The seed stands once, at the front: the walk stops on returning to it,
//! so the closing duplicate is never stored (`lemma_seed_not_repeated`).
//! A pinch pixel — a corner the boundary passes twice, as between two
//! diagonally touching shapes — recurs once per pass.

use vstd::arithmetic::div_mod::lemma_div_multiples_vanish_fancy;
use vstd::arithmetic::div_mod::lemma_div_pos_is_pos;
use vstd::arithmetic::div_mod::lemma_fundamental_div_mod;
use vstd::arithmetic::div_mod::lemma_mod_division_less_than_divisor;
use vstd::arithmetic::div_mod::lemma_multiply_divide_lt;
use vstd::arithmetic::mul::lemma_mul_inequality;
use vstd::prelude::*;

use crate::bin_image::BinImage;
use crate::direction::dir_dx;
use crate::direction::dir_dy;
use crate::direction::spec_next_direction;
use crate::direction::Direction;
use crate::neighbors::has_flag;
use crate::neighbors::spec_is_corner;
use crate::neighbors::spec_neighbors;
use crate::neighbors::Neighbors;
use crate::neighbors::EAST;
use crate::neighbors::NORTH;
use crate::neighbors::NORTHEAST;
use crate::neighbors::NORTHWEST;
use crate::neighbors::SOUTH;
use crate::neighbors::SOUTHEAST;
use crate::neighbors::SOUTHWEST;
use crate::neighbors::WEST;
use crate::point::UVec2;

verus! {

/// The neighbor mask at `p`.
pub open spec fn mask_at(img: BinImage, p: UVec2) -> u8 {
    spec_neighbors(img, p.x as int, p.y as int)
}

/// Whether `p` can seed or extend a polygon: a foreground pixel whose mask
/// marks a direction-change vertex.
pub open spec fn spec_is_candidate(img: BinImage, p: UVec2) -> bool {
    img.px(p.x as int, p.y as int) && spec_is_corner(mask_at(img, p))
}

/// The fixed scan order: every grid point, row by row from `y = 0` up,
/// left to right within a row.
pub open spec fn spec_grid(img: BinImage) -> Seq<UVec2> {
    Seq::new(
        (img.spec_width() * img.spec_height()) as nat,
        |i: int|
            UVec2 {
                x: (i % img.spec_width() as int) as u32,
                y: (i / img.spec_width() as int) as u32,
            },
    )
}

/// The candidates among the first `n` grid points, in scan order.
pub open spec fn spec_candidates_upto(img: BinImage, n: int) -> Seq<UVec2>
    decreases n,
{
    if n <= 0 {
        Seq::empty()
    } else {
        let prev = spec_candidates_upto(img, n - 1);
        let p = spec_grid(img)[n - 1];
        if spec_is_candidate(img, p) {
            prev.push(p)
        } else {
            prev
        }
    }
}

/// Every candidate corner of the image, in scan order.
pub open spec fn spec_candidates(img: BinImage) -> Seq<UVec2> {
    spec_candidates_upto(img, spec_grid(img).len() as int)
}

/// One step of a walk: the pixel one unit from `cur` in direction `d`,
/// provided it is foreground (and hence on the grid).
pub open spec fn spec_step(img: BinImage, cur: UVec2, d: Direction) -> Option<UVec2> {
    let nx = cur.x + dir_dx(d);
    let ny = cur.y + dir_dy(d);
    if img.px(nx, ny) {
        Some(UVec2 { x: nx as u32, y: ny as u32 })
    } else {
        None
    }
}

/// The boundary walk.  From `cur`, reached moving `prev`, it consults the
/// state machine, advances one pixel, appends the new pixel to the vertex
/// list `obj` when that pixel is itself a corner, records it in the
/// visited list `vis`, and recurses until it returns to `start`, meets a
/// degenerate mask or step, or exhausts `fuel`.  Yields the final vertex
/// and visited lists.
pub open spec fn spec_walk(
    img: BinImage,
    start: UVec2,
    cur: UVec2,
    prev: Option<Direction>,
    obj: Seq<UVec2>,
    vis: Seq<UVec2>,
    fuel: nat,
) -> (Seq<UVec2>, Seq<UVec2>)
    decreases fuel,
{
    if fuel == 0 {
        (obj, vis)
    } else {
        let m = mask_at(img, cur);
        if m == 0 || m == 255 {
            (obj, vis)
        } else {
            let d = spec_next_direction(prev, m);
            match spec_step(img, cur, d) {
                None => (obj, vis),
                Some(nxt) => if nxt == start {
                    (obj, vis)
                } else {
                    spec_walk(
                        img,
                        start,
                        nxt,
                        Some(d),
                        if spec_is_candidate(img, nxt) {
                            obj.push(nxt)
                        } else {
                            obj
                        },
                        vis.push(nxt),
                        (fuel - 1) as nat,
                    )
                },
            }
        }
    }
}

/// The complete walk seeded at `start`: vertex list and visited list.
pub open spec fn spec_trace(img: BinImage, start: UVec2) -> (Seq<UVec2>, Seq<UVec2>) {
    spec_walk(
        img,
        start,
        start,
        None,
        seq![start],
        seq![start],
        (img.spec_width() * img.spec_height()) as nat,
    )
}

/// Claim marking: a pool entry is claimed once the walk has visited it.
pub open spec fn spec_mark(pool: Seq<UVec2>, claimed: Seq<bool>, vis: Seq<UVec2>) -> Seq<bool> {
    Seq::new(claimed.len(), |j: int| claimed[j] || vis.contains(pool[j]))
}

/// The extraction loop over the candidate pool from entry `i` on: skip
/// claimed entries, trace a polygon from each unclaimed one, and claim
/// everything that walk visited.
pub open spec fn spec_extract_from(
    img: BinImage,
    pool: Seq<UVec2>,
    claimed: Seq<bool>,
    i: int,
) -> Seq<Seq<UVec2>>
    decreases pool.len() - i,
{
    if i < 0 || i >= pool.len() {
        Seq::empty()
    } else if claimed[i] {
        spec_extract_from(img, pool, claimed, i + 1)
    } else {
        let tv = spec_trace(img, pool[i]);
        seq![tv.0] + spec_extract_from(img, pool, spec_mark(pool, claimed, tv.1), i + 1)
    }
}

/// Every polygon of the image, in the order their seeds are scanned.
pub open spec fn spec_polygons(img: BinImage) -> Seq<Seq<UVec2>> {
    spec_extract_from(
        img,
        spec_candidates(img),
        Seq::new(spec_candidates(img).len(), |j: int| false),
        0,
    )
}

/// Extraction is deterministic: the polygons of an image are a function of
/// the image alone, so two extractions from the same image yield the same
/// polygon list.
pub proof fn lemma_extraction_deterministic(
    img: BinImage,
    r1: Seq<Seq<UVec2>>,
    r2: Seq<Seq<UVec2>>,
)
    requires
        r1 == spec_polygons(img),
        r2 == spec_polygons(img),
    ensures
        r1 == r2,
{
}

/// A walk never stores its seed again: it stops the moment a step returns
/// there.
proof fn lemma_walk_seed_not_repeated(
    img: BinImage,
    start: UVec2,
    cur: UVec2,
    prev: Option<Direction>,
    obj: Seq<UVec2>,
    vis: Seq<UVec2>,
    fuel: nat,
    j: int,
)
    requires
        forall|k: int| 1 <= k < obj.len() ==> obj[k] != start,
        1 <= j < spec_walk(img, start, cur, prev, obj, vis, fuel).0.len(),
    ensures
        spec_walk(img, start, cur, prev, obj, vis, fuel).0[j] != start,
    decreases fuel,
{
    if fuel > 0 {
        let m = mask_at(img, cur);
        if m != 0 && m != 255 {
            let d = spec_next_direction(prev, m);
            match spec_step(img, cur, d) {
                None => {},
                Some(nxt) => {
                    if nxt != start {
                        let obj2 = if spec_is_candidate(img, nxt) {
                            obj.push(nxt)
                        } else {
                            obj
                        };
                        assert forall|k: int| 1 <= k < obj2.len() implies obj2[k] != start by {
                            if k < obj.len() {
                                assert(obj2[k] == obj[k]);
                            }
                        }
                        lemma_walk_seed_not_repeated(
                            img,
                            start,
                            nxt,
                            Some(d),
                            obj2,
                            vis.push(nxt),
                            (fuel - 1) as nat,
                            j,
                        );
                    }
                },
            }
        }
    }
}

/// A stored polygon never repeats its seed: every vertex after the first
/// differs from it, so the implicit closing edge is the only return to the
/// seed.  (A pinch pixel other than the seed may recur, once per pass of
/// the boundary.)
pub proof fn lemma_seed_not_repeated(img: BinImage, start: UVec2, j: int)
    requires
        1 <= j < spec_trace(img, start).0.len(),
    ensures
        spec_trace(img, start).0[j] != start,
{
    lemma_walk_seed_not_repeated(
        img,
        start,
        start,
        None,
        seq![start],
        seq![start],
        (img.spec_width() * img.spec_height()) as nat,
        j,
    );
}

/// A mask with a set flag is not empty; one with a clear flag is not full;
/// one with every flag set is the full mask.
proof fn lemma_flag_bounds(m: u8)
    by (bit_vector)
    ensures
        m & 0x80u8 != 0 ==> m != 0,
        m & 0x40u8 != 0 ==> m != 0,
        m & 0x20u8 != 0 ==> m != 0,
        m & 0x10u8 != 0 ==> m != 0,
        m & 0x08u8 != 0 ==> m != 0,
        m & 0x04u8 != 0 ==> m != 0,
        m & 0x02u8 != 0 ==> m != 0,
        m & 0x01u8 != 0 ==> m != 0,
        m & 0x80u8 == 0 ==> m != 255,
        m & 0x40u8 == 0 ==> m != 255,
        m & 0x20u8 == 0 ==> m != 255,
        m & 0x10u8 == 0 ==> m != 255,
        m & 0x08u8 == 0 ==> m != 255,
        m & 0x04u8 == 0 ==> m != 255,
        m & 0x02u8 == 0 ==> m != 255,
        m & 0x01u8 == 0 ==> m != 255,
        (m & 0x80u8 != 0 && m & 0x40u8 != 0 && m & 0x20u8 != 0 && m & 0x10u8 != 0 && m & 0x08u8
            != 0 && m & 0x04u8 != 0 && m & 0x02u8 != 0 && m & 0x01u8 != 0) ==> m == 255,
{
}

/// Membership in the filled rectangle with corners `(x0, y0)` and
/// `(x1, y1)`, both included.
pub open spec fn in_rect(x0: u32, y0: u32, x1: u32, y1: u32, x: int, y: int) -> bool {
    x0 <= x <= x1 && y0 <= y <= y1
}

/// An image that holds exactly one filled rectangle.
pub open spec fn is_rect_image(img: BinImage, x0: u32, y0: u32, x1: u32, y1: u32) -> bool {
    &&& x0 < x1 < img.spec_width()
    &&& y0 < y1 < img.spec_height()
    &&& forall|x: int, y: int| #[trigger] img.px(x, y) <==> in_rect(x0, y0, x1, y1, x, y)
}

/// In a rectangle image, each neighbor flag of a mask reads as rectangle
/// membership of the neighbor's coordinates.
proof fn lemma_rect_flags(img: BinImage, x0: u32, y0: u32, x1: u32, y1: u32, x: int, y: int)
    requires
        is_rect_image(img, x0, y0, x1, y1),
    ensures
        has_flag(spec_neighbors(img, x, y), NORTH) == in_rect(x0, y0, x1, y1, x, y + 1),
        has_flag(spec_neighbors(img, x, y), SOUTH) == in_rect(x0, y0, x1, y1, x, y - 1),
        has_flag(spec_neighbors(img, x, y), EAST) == in_rect(x0, y0, x1, y1, x + 1, y),
        has_flag(spec_neighbors(img, x, y), WEST) == in_rect(x0, y0, x1, y1, x - 1, y),
        has_flag(spec_neighbors(img, x, y), NORTHEAST) == in_rect(x0, y0, x1, y1, x + 1, y + 1),
        has_flag(spec_neighbors(img, x, y), NORTHWEST) == in_rect(x0, y0, x1, y1, x - 1, y + 1),
        has_flag(spec_neighbors(img, x, y), SOUTHEAST) == in_rect(x0, y0, x1, y1, x + 1, y - 1),
        has_flag(spec_neighbors(img, x, y), SOUTHWEST) == in_rect(x0, y0, x1, y1, x - 1, y - 1),
    {
    crate::neighbors::lemma_neighbors_bits(img, x, y);
}

/// In a rectangle image, a rectangle pixel is a candidate corner exactly
/// when it sits at one of the rectangle's four corners.
proof fn lemma_rect_is_candidate(img: BinImage, x0: u32, y0: u32, x1: u32, y1: u32, a: int, b: int)
    requires
        is_rect_image(img, x0, y0, x1, y1),
        in_rect(x0, y0, x1, y1, a, b),
    ensures
        spec_is_candidate(img, UVec2 { x: a as u32, y: b as u32 }) == ((a == x0 || a == x1) && (b
            == y0 || b == y1)),
        (a == x0 || a == x1) && (b == y0 || b == y1) ==> spec_neighbors(img, a, b) != 0
            && spec_neighbors(img, a, b) != 255,
{
    lemma_rect_flags(img, x0, y0, x1, y1, a, b);
    lemma_flag_bounds(spec_neighbors(img, a, b));
    assert(img.px(a, b));
    let pt = UVec2 { x: a as u32, y: b as u32 };
    assert(pt.x as int == a && pt.y as int == b);
    assert(mask_at(img, pt) == spec_neighbors(img, a, b));
}

/// Row-major grid indices are in bijection with coordinates: two index
/// decompositions agree exactly when the coordinates do.
proof fn lemma_grid_index(w: int, a: int, b: int, xc: int, yc: int)
    requires
        0 < w,
        0 <= a < w,
        0 <= xc < w,
        0 <= b,
        0 <= yc,
    ensures
        (b * w + a == yc * w + xc) <==> (a == xc && b == yc),
{
    if b * w + a == yc * w + xc {
        lemma_div_multiples_vanish_fancy(b, a, w);
        lemma_div_multiples_vanish_fancy(yc, xc, w);
        assert(w * b == b * w) by (nonlinear_arith);
        assert(w * yc == yc * w) by (nonlinear_arith);
        assert((b * w + a) / w == b);
        assert((yc * w + xc) / w == yc);
    }
}

/// The candidate corners a rectangle image accumulates over its first `n`
/// grid points: the four rectangle corners, entering in scan order.
spec fn rect_cands_upto(img: BinImage, x0: u32, y0: u32, x1: u32, y1: u32, n: int) -> Seq<UVec2> {
    let w = img.spec_width() as int;
    if n <= y0 * w + x0 {
        Seq::empty()
    } else if n <= y0 * w + x1 {
        seq![UVec2 { x: x0, y: y0 }]
    } else if n <= y1 * w + x0 {
        seq![UVec2 { x: x0, y: y0 }, UVec2 { x: x1, y: y0 }]
    } else if n <= y1 * w + x1 {
        seq![UVec2 { x: x0, y: y0 }, UVec2 { x: x1, y: y0 }, UVec2 { x: x0, y: y1 }]
    } else {
        seq![
            UVec2 { x: x0, y: y0 },
            UVec2 { x: x1, y: y0 },
            UVec2 { x: x0, y: y1 },
            UVec2 { x: x1, y: y1 },
        ]
    }
}

/// Scanning a rectangle image finds exactly the four rectangle corners.
proof fn lemma_rect_candidates_upto(img: BinImage, x0: u32, y0: u32, x1: u32, y1: u32, n: int)
    requires
        is_rect_image(img, x0, y0, x1, y1),
        0 <= n <= spec_grid(img).len(),
    ensures
        spec_candidates_upto(img, n) == rect_cands_upto(img, x0, y0, x1, y1, n),
    decreases n,
{
    let w = img.spec_width() as int;
    let h = img.spec_height() as int;
    assert(spec_grid(img).len() == w * h);
    if n > 0 {
        lemma_rect_candidates_upto(img, x0, y0, x1, y1, n - 1);
        let i = n - 1;
        let p = spec_grid(img)[i];
        lemma_mod_division_less_than_divisor(i, w);
        lemma_fundamental_div_mod(i, w);
        lemma_div_pos_is_pos(i, w);
        lemma_multiply_divide_lt(i, w, h);
        let a = i % w;
        let b = i / w;
        assert(p == UVec2 { x: a as u32, y: b as u32 });
        assert(p.x as int == a && p.y as int == b);
        assert(i == b * w + a) by {
            assert(w * b == b * w) by (nonlinear_arith);
        }
        lemma_grid_index(w, a, b, x0 as int, y0 as int);
        lemma_grid_index(w, a, b, x1 as int, y0 as int);
        lemma_grid_index(w, a, b, x0 as int, y1 as int);
        lemma_grid_index(w, a, b, x1 as int, y1 as int);
        // The four breakpoints are strictly ordered and at least one row
        // apart between the bottom and the top pair.
        assert(y0 * w + x1 + 1 <= y1 * w + x0) by {
            lemma_mul_inequality(y0 as int + 1, y1 as int, w);
            assert((y0 as int + 1) * w == y0 * w + w) by (nonlinear_arith);
        }
        if in_rect(x0, y0, x1, y1, a, b) {
            lemma_rect_is_candidate(img, x0, y0, x1, y1, a, b);
            assert(img.px(a, b));
        } else {
            assert(!img.px(a, b));
            assert(!spec_is_candidate(img, p));
        }
        assert(spec_candidates_upto(img, n) == rect_cands_upto(img, x0, y0, x1, y1, n)) by {
            if spec_is_candidate(img, p) {
                assert(spec_candidates_upto(img, n) =~= spec_candidates_upto(img, i).push(p));
                assert(rect_cands_upto(img, x0, y0, x1, y1, n) =~= rect_cands_upto(
                    img,
                    x0,
                    y0,
                    x1,
                    y1,
                    i,
                ).push(p));
            }
        }
    }
}

/// The vertex list a walk produces does not depend on the visited list it
/// carries.
proof fn lemma_walk_obj_ignores_vis(
    img: BinImage,
    start: UVec2,
    cur: UVec2,
    prev: Option<Direction>,
    obj: Seq<UVec2>,
    vis1: Seq<UVec2>,
    vis2: Seq<UVec2>,
    fuel: nat,
)
    ensures
        spec_walk(img, start, cur, prev, obj, vis1, fuel).0 == spec_walk(
            img,
            start,
            cur,
            prev,
            obj,
            vis2,
            fuel,
        ).0,
    decreases fuel,
{
    if fuel > 0 {
        let m = mask_at(img, cur);
        if m != 0 && m != 255 {
            let d = spec_next_direction(prev, m);
            match spec_step(img, cur, d) {
                None => {},
                Some(nxt) => {
                    if nxt != start {
                        let obj2 = if spec_is_candidate(img, nxt) {
                            obj.push(nxt)
                        } else {
                            obj
                        };
                        lemma_walk_obj_ignores_vis(
                            img,
                            start,
                            nxt,
                            Some(d),
                            obj2,
                            vis1.push(nxt),
                            vis2.push(nxt),
                            (fuel - 1) as nat,
                        );
                    }
                },
            }
        }
    }
}

/// The vertex list of a walk: its result with the visited list dropped.
spec fn walk_obj(
    img: BinImage,
    start: UVec2,
    cur: UVec2,
    prev: Option<Direction>,
    obj: Seq<UVec2>,
    fuel: nat,
) -> Seq<UVec2> {
    spec_walk(img, start, cur, prev, obj, Seq::empty(), fuel).0
}

/// Every vertex a walk emits, it also records as visited, provided the
/// vertices it starts with are already recorded.
proof fn lemma_walk_obj_in_vis(
    img: BinImage,
    start: UVec2,
    cur: UVec2,
    prev: Option<Direction>,
    obj: Seq<UVec2>,
    vis: Seq<UVec2>,
    fuel: nat,
    e: UVec2,
)
    requires
        forall|q: UVec2| obj.contains(q) ==> vis.contains(q),
        spec_walk(img, start, cur, prev, obj, vis, fuel).0.contains(e),
    ensures
        spec_walk(img, start, cur, prev, obj, vis, fuel).1.contains(e),
    decreases fuel,
{
    if fuel == 0 {
        assert(obj.contains(e));
    } else {
        let m = mask_at(img, cur);
        if m == 0 || m == 255 {
            assert(obj.contains(e));
        } else {
            let d = spec_next_direction(prev, m);
            match spec_step(img, cur, d) {
                None => {
                    assert(obj.contains(e));
                },
                Some(nxt) => {
                    if nxt == start {
                        assert(obj.contains(e));
                    } else {
                        let obj2 = if spec_is_candidate(img, nxt) {
                            obj.push(nxt)
                        } else {
                            obj
                        };
                        let vis2 = vis.push(nxt);
                        assert forall|q: UVec2| obj2.contains(q) implies vis2.contains(q) by {
                            let i = choose|i: int| 0 <= i < obj2.len() && obj2[i] == q;
                            if i < obj.len() {
                                assert(obj[i] == q);
                                assert(obj.contains(q));
                                let j = choose|j: int| 0 <= j < vis.len() && vis[j] == q;
                                assert(vis2[j] == q);
                            } else {
                                assert(q == nxt);
                                assert(vis2[vis.len() as int] == q);
                            }
                        }
                        lemma_walk_obj_in_vis(
                            img,
                            start,
                            nxt,
                            Some(d),
                            obj2,
                            vis2,
                            (fuel - 1) as nat,
                            e,
                        );
                    }
                },
            }
        }
    }
}

/// One walk step as an equation on the vertex list: from a usable mask
/// and a step to a pixel other than the seed, the walk continues there.
proof fn lemma_walk_obj_step(
    img: BinImage,
    start: UVec2,
    cur: UVec2,
    prev: Option<Direction>,
    obj: Seq<UVec2>,
    fuel: nat,
    nxt: UVec2,
)
    requires
        fuel > 0,
        mask_at(img, cur) != 0,
        mask_at(img, cur) != 255,
        spec_step(img, cur, spec_next_direction(prev, mask_at(img, cur))) == Some(nxt),
        nxt != start,
    ensures
        walk_obj(img, start, cur, prev, obj, fuel) == walk_obj(
            img,
            start,
            nxt,
            Some(spec_next_direction(prev, mask_at(img, cur))),
            if spec_is_candidate(img, nxt) {
                obj.push(nxt)
            } else {
                obj
            },
            (fuel - 1) as nat,
        ),
{
    let d = spec_next_direction(prev, mask_at(img, cur));
    let obj2 = if spec_is_candidate(img, nxt) {
        obj.push(nxt)
    } else {
        obj
    };
    lemma_walk_obj_ignores_vis(
        img,
        start,
        nxt,
        Some(d),
        obj2,
        Seq::<UVec2>::empty().push(nxt),
        Seq::empty(),
        (fuel - 1) as nat,
    );
}

/// Walking north along the rectangle's west edge gathers no vertices until
/// it reaches the top-left corner, which it records.
proof fn lemma_rect_walk_west(
    img: BinImage,
    x0: u32,
    y0: u32,
    x1: u32,
    y1: u32,
    obj: Seq<UVec2>,
    y: int,
    fuel: nat,
)
    requires
        is_rect_image(img, x0, y0, x1, y1),
        y0 < y <= y1,
        fuel >= y1 - y + 1,
    ensures
        walk_obj(
            img,
            UVec2 { x: x0, y: y0 },
            UVec2 { x: x0, y: y as u32 },
            Some(Direction::North),
            obj,
            fuel,
        ) == walk_obj(
            img,
            UVec2 { x: x0, y: y0 },
            UVec2 { x: x0, y: y1 },
            Some(Direction::North),
            if y == y1 {
                obj
            } else {
                obj.push(UVec2 { x: x0, y: y1 })
            },
            (fuel - (y1 - y)) as nat,
        ),
    decreases y1 - y,
{
    let bl = UVec2 { x: x0, y: y0 };
    let tl = UVec2 { x: x0, y: y1 };
    let cur = UVec2 { x: x0, y: y as u32 };
    if y < y1 {
        assert(cur.x as int == x0 && cur.y as int == y);
        let m = mask_at(img, cur);
        lemma_rect_flags(img, x0, y0, x1, y1, x0 as int, y);
        lemma_flag_bounds(m);
        assert(m != 0 && m != 255);
        let d = spec_next_direction(Some(Direction::North), m);
        assert(d == Direction::North);
        let nxt = UVec2 { x: x0, y: (y + 1) as u32 };
        assert(spec_step(img, cur, d) == Some(nxt)) by {
            assert(img.px(x0 as int, y + 1));
        }
        assert(nxt != bl);
        lemma_rect_is_candidate(img, x0, y0, x1, y1, x0 as int, y + 1);
        let obj2 = if spec_is_candidate(img, nxt) {
            obj.push(nxt)
        } else {
            obj
        };
        lemma_walk_obj_step(img, bl, cur, Some(Direction::North), obj, fuel, nxt);
        lemma_rect_walk_west(img, x0, y0, x1, y1, obj2, y + 1, (fuel - 1) as nat);
        if y + 1 == y1 {
            assert(nxt == tl);
            assert(spec_is_candidate(img, nxt));
        } else {
            assert(!spec_is_candidate(img, nxt));
        }
    }
}

/// Walking east along the rectangle's top edge gathers no vertices until
/// it reaches the top-right corner, which it records.
proof fn lemma_rect_walk_north(
    img: BinImage,
    x0: u32,
    y0: u32,
    x1: u32,
    y1: u32,
    obj: Seq<UVec2>,
    x: int,
    fuel: nat,
)
    requires
        is_rect_image(img, x0, y0, x1, y1),
        x0 < x <= x1,
        fuel >= x1 - x + 1,
    ensures
        walk_obj(
            img,
            UVec2 { x: x0, y: y0 },
            UVec2 { x: x as u32, y: y1 },
            Some(Direction::East),
            obj,
            fuel,
        ) == walk_obj(
            img,
            UVec2 { x: x0, y: y0 },
            UVec2 { x: x1, y: y1 },
            Some(Direction::East),
            if x == x1 {
                obj
            } else {
                obj.push(UVec2 { x: x1, y: y1 })
            },
            (fuel - (x1 - x)) as nat,
        ),
    decreases x1 - x,
{
    let bl = UVec2 { x: x0, y: y0 };
    let tr = UVec2 { x: x1, y: y1 };
    let cur = UVec2 { x: x as u32, y: y1 };
    if x < x1 {
        assert(cur.x as int == x && cur.y as int == y1);
        let m = mask_at(img, cur);
        lemma_rect_flags(img, x0, y0, x1, y1, x, y1 as int);
        lemma_flag_bounds(m);
        assert(m != 0 && m != 255);
        let d = spec_next_direction(Some(Direction::East), m);
        assert(d == Direction::East);
        let nxt = UVec2 { x: (x + 1) as u32, y: y1 };
        assert(spec_step(img, cur, d) == Some(nxt)) by {
            assert(img.px(x + 1, y1 as int));
        }
        assert(nxt != bl);
        lemma_rect_is_candidate(img, x0, y0, x1, y1, x + 1, y1 as int);
        let obj2 = if spec_is_candidate(img, nxt) {
            obj.push(nxt)
        } else {
            obj
        };
        lemma_walk_obj_step(img, bl, cur, Some(Direction::East), obj, fuel, nxt);
        lemma_rect_walk_north(img, x0, y0, x1, y1, obj2, x + 1, (fuel - 1) as nat);
        if x + 1 == x1 {
            assert(nxt == tr);
            assert(spec_is_candidate(img, nxt));
        } else {
            assert(!spec_is_candidate(img, nxt));
        }
    }
}

/// Walking south along the rectangle's east edge gathers no vertices until
/// it reaches the bottom-right corner, which it records.
proof fn lemma_rect_walk_east(
    img: BinImage,
    x0: u32,
    y0: u32,
    x1: u32,
    y1: u32,
    obj: Seq<UVec2>,
    y: int,
    fuel: nat,
)
    requires
        is_rect_image(img, x0, y0, x1, y1),
        y0 <= y < y1,
        fuel >= y - y0 + 1,
    ensures
        walk_obj(
            img,
            UVec2 { x: x0, y: y0 },
            UVec2 { x: x1, y: y as u32 },
            Some(Direction::South),
            obj,
            fuel,
        ) == walk_obj(
            img,
            UVec2 { x: x0, y: y0 },
            UVec2 { x: x1, y: y0 },
            Some(Direction::South),
            if y == y0 {
                obj
            } else {
                obj.push(UVec2 { x: x1, y: y0 })
            },
            (fuel - (y - y0)) as nat,
        ),
    decreases y - y0,
{
    let bl = UVec2 { x: x0, y: y0 };
    let br = UVec2 { x: x1, y: y0 };
    let cur = UVec2 { x: x1, y: y as u32 };
    if y > y0 {
        assert(cur.x as int == x1 && cur.y as int == y);
        let m = mask_at(img, cur);
        lemma_rect_flags(img, x0, y0, x1, y1, x1 as int, y);
        lemma_flag_bounds(m);
        assert(m != 0 && m != 255);
        let d = spec_next_direction(Some(Direction::South), m);
        assert(d == Direction::South);
        let nxt = UVec2 { x: x1, y: (y - 1) as u32 };
        assert(spec_step(img, cur, d) == Some(nxt)) by {
            assert(img.px(x1 as int, y - 1));
        }
        assert(nxt != bl);
        lemma_rect_is_candidate(img, x0, y0, x1, y1, x1 as int, y - 1);
        let obj2 = if spec_is_candidate(img, nxt) {
            obj.push(nxt)
        } else {
            obj
        };
        lemma_walk_obj_step(img, bl, cur, Some(Direction::South), obj, fuel, nxt);
        lemma_rect_walk_east(img, x0, y0, x1, y1, obj2, y - 1, (fuel - 1) as nat);
        if y - 1 == y0 {
            assert(nxt == br);
            assert(spec_is_candidate(img, nxt));
        } else {
            assert(!spec_is_candidate(img, nxt));
        }
    }
}

/// Walking west along the rectangle's bottom edge gathers nothing more and
/// closes the loop at the seed.
proof fn lemma_rect_walk_south(
    img: BinImage,
    x0: u32,
    y0: u32,
    x1: u32,
    y1: u32,
    obj: Seq<UVec2>,
    x: int,
    fuel: nat,
)
    requires
        is_rect_image(img, x0, y0, x1, y1),
        x0 < x < x1,
        fuel >= x - x0,
    ensures
        walk_obj(
            img,
            UVec2 { x: x0, y: y0 },
            UVec2 { x: x as u32, y: y0 },
            Some(Direction::West),
            obj,
            fuel,
        ) == obj,
    decreases x - x0,
{
    let bl = UVec2 { x: x0, y: y0 };
    let cur = UVec2 { x: x as u32, y: y0 };
    assert(cur.x as int == x && cur.y as int == y0);
    let m = mask_at(img, cur);
    lemma_rect_flags(img, x0, y0, x1, y1, x, y0 as int);
    lemma_flag_bounds(m);
    assert(m != 0 && m != 255);
    let d = spec_next_direction(Some(Direction::West), m);
    assert(d == Direction::West);
    let nxt = UVec2 { x: (x - 1) as u32, y: y0 };
    assert(spec_step(img, cur, d) == Some(nxt)) by {
        assert(img.px(x - 1, y0 as int));
    }
    if x - 1 == x0 {
        assert(nxt == bl);
    } else {
        lemma_rect_is_candidate(img, x0, y0, x1, y1, x - 1, y0 as int);
        assert(!spec_is_candidate(img, nxt));
        lemma_walk_obj_step(img, bl, cur, Some(Direction::West), obj, fuel, nxt);
        lemma_rect_walk_south(img, x0, y0, x1, y1, obj, x - 1, (fuel - 1) as nat);
    }
}

/// A single filled rectangle, at least two pixels wide and tall, yields
/// exactly one polygon: its four corners, seeded at the bottom-left one
/// and walked up the west edge first.
pub proof fn lemma_rectangle(img: BinImage, x0: u32, y0: u32, x1: u32, y1: u32)
    requires
        is_rect_image(img, x0, y0, x1, y1),
    ensures
        spec_polygons(img) == seq![
            seq![
                UVec2 { x: x0, y: y0 },
                UVec2 { x: x0, y: y1 },
                UVec2 { x: x1, y: y1 },
                UVec2 { x: x1, y: y0 },
            ],
        ],
{
    let w = img.spec_width() as int;
    let h = img.spec_height() as int;
    let bl = UVec2 { x: x0, y: y0 };
    let br = UVec2 { x: x1, y: y0 };
    let tl = UVec2 { x: x0, y: y1 };
    let tr = UVec2 { x: x1, y: y1 };
    let fuel = (img.spec_width() * img.spec_height()) as nat;
    // The candidate pool is the four corners in scan order.
    lemma_rect_candidates_upto(img, x0, y0, x1, y1, w * h);
    assert(w * h > y1 * w + x1) by {
        lemma_mul_inequality(y1 as int + 1, h, w);
        assert((y1 as int + 1) * w == y1 * w + w) by (nonlinear_arith);
        assert(h * w == w * h) by (nonlinear_arith);
    }
    assert(spec_grid(img).len() as int == w * h);
    assert(y0 * w <= y1 * w) by {
        lemma_mul_inequality(y0 as int, y1 as int, w);
    }
    let pool = spec_candidates(img);
    assert(pool == spec_candidates_upto(img, w * h));
    assert(pool == seq![bl, br, tl, tr]);
    // The walk consumes at most the perimeter, and the pixel count covers it.
    assert(fuel >= 2 * (x1 - x0) + 2 * (y1 - y0)) by {
        lemma_mul_inequality(x1 as int + 1, w, h);
        assert((x1 as int + 1) * h == x1 * h + h) by (nonlinear_arith);
        assert((x1 as int - x0 as int + 1) * (y1 as int - y0 as int + 1) <= (x1 as int + 1) * h)
            by (nonlinear_arith)
            requires
                0 <= x0 as int && 0 <= y0 as int && (x0 as int) < x1 as int && (y0 as int) < y1
                    as int && (y1 as int) < h,
        ;
        assert((x1 as int - x0 as int + 1) * (y1 as int - y0 as int + 1) >= 2 * (x1 as int
            - x0 as int) + 2 * (y1 as int - y0 as int)) by (nonlinear_arith)
            requires
                1 <= x1 as int - x0 as int && 1 <= y1 as int - y0 as int,
        ;
        assert(x1 * h <= w * h) by {
            lemma_mul_inequality(x1 as int, w, h);
            assert(x1 as int * h == x1 * h && w * h == w * h) by (nonlinear_arith);
        }
    }
    // Unfold the walk around the rectangle, corner by corner.
    let dx = x1 - x0;
    let dy = y1 - y0;
    assert(spec_trace(img, bl).0 == seq![bl, tl, tr, br]) by {
        lemma_walk_obj_ignores_vis(img, bl, bl, None, seq![bl], seq![bl], Seq::empty(), fuel);
        // Seed: the bottom-left corner starts north.
        lemma_rect_flags(img, x0, y0, x1, y1, x0 as int, y0 as int);
        lemma_flag_bounds(mask_at(img, bl));
        assert(mask_at(img, bl) != 0 && mask_at(img, bl) != 255);
        let d0 = spec_next_direction(None, mask_at(img, bl));
        assert(d0 == Direction::North);
        let p1 = UVec2 { x: x0, y: (y0 + 1) as u32 };
        assert(spec_step(img, bl, d0) == Some(p1)) by {
            assert(img.px(x0 as int, y0 as int + 1));
        }
        assert(p1 != bl);
        lemma_rect_is_candidate(img, x0, y0, x1, y1, x0 as int, y0 as int + 1);
        let obj1 = if spec_is_candidate(img, p1) {
            seq![bl].push(p1)
        } else {
            seq![bl]
        };
        lemma_walk_obj_step(img, bl, bl, None, seq![bl], fuel, p1);
        // West edge up to the top-left corner.
        lemma_rect_walk_west(img, x0, y0, x1, y1, obj1, y0 as int + 1, (fuel - 1) as nat);
        let obj_tl = seq![bl, tl];
        assert(if y0 as int + 1 == y1 as int {
            obj1
        } else {
            obj1.push(tl)
        } =~= obj_tl);
        let fuel_tl = (fuel - dy) as nat;
        // Turn east at the top-left corner.
        lemma_rect_flags(img, x0, y0, x1, y1, x0 as int, y1 as int);
        lemma_flag_bounds(mask_at(img, tl));
        assert(mask_at(img, tl) != 0 && mask_at(img, tl) != 255);
        let d1 = spec_next_direction(Some(Direction::North), mask_at(img, tl));
        assert(d1 == Direction::East);
        let p2 = UVec2 { x: (x0 + 1) as u32, y: y1 };
        assert(spec_step(img, tl, d1) == Some(p2)) by {
            assert(img.px(x0 as int + 1, y1 as int));
        }
        assert(p2 != bl);
        lemma_rect_is_candidate(img, x0, y0, x1, y1, x0 as int + 1, y1 as int);
        let obj2 = if spec_is_candidate(img, p2) {
            obj_tl.push(p2)
        } else {
            obj_tl
        };
        lemma_walk_obj_step(img, bl, tl, Some(Direction::North), obj_tl, fuel_tl, p2);
        // Top edge east to the top-right corner.
        lemma_rect_walk_north(img, x0, y0, x1, y1, obj2, x0 as int + 1, (fuel_tl - 1) as nat);
        let obj_tr = seq![bl, tl, tr];
        assert(if x0 as int + 1 == x1 as int {
            obj2
        } else {
            obj2.push(tr)
        } =~= obj_tr);
        let fuel_tr = (fuel - dy - dx) as nat;
        // Turn south at the top-right corner.
        lemma_rect_flags(img, x0, y0, x1, y1, x1 as int, y1 as int);
        lemma_flag_bounds(mask_at(img, tr));
        assert(mask_at(img, tr) != 0 && mask_at(img, tr) != 255);
        let d2 = spec_next_direction(Some(Direction::East), mask_at(img, tr));
        assert(d2 == Direction::South);
        let p3 = UVec2 { x: x1, y: (y1 - 1) as u32 };
        assert(spec_step(img, tr, d2) == Some(p3)) by {
            assert(img.px(x1 as int, y1 as int - 1));
        }
        assert(p3 != bl);
        lemma_rect_is_candidate(img, x0, y0, x1, y1, x1 as int, y1 as int - 1);
        let obj3 = if spec_is_candidate(img, p3) {
            obj_tr.push(p3)
        } else {
            obj_tr
        };
        lemma_walk_obj_step(img, bl, tr, Some(Direction::East), obj_tr, fuel_tr, p3);
        // East edge down to the bottom-right corner.
        lemma_rect_walk_east(img, x0, y0, x1, y1, obj3, y1 as int - 1, (fuel_tr - 1) as nat);
        let obj_br = seq![bl, tl, tr, br];
        assert(if y1 as int - 1 == y0 as int {
            obj3
        } else {
            obj3.push(br)
        } =~= obj_br);
        let fuel_br = (fuel - 2 * dy - dx) as nat;
        // Turn west at the bottom-right corner; the next step either closes
        // at the seed or walks the bottom edge back to it.
        lemma_rect_flags(img, x0, y0, x1, y1, x1 as int, y0 as int);
        lemma_flag_bounds(mask_at(img, br));
        assert(mask_at(img, br) != 0 && mask_at(img, br) != 255);
        let d3 = spec_next_direction(Some(Direction::South), mask_at(img, br));
        assert(d3 == Direction::West);
        let p4 = UVec2 { x: (x1 - 1) as u32, y: y0 };
        assert(spec_step(img, br, d3) == Some(p4)) by {
            assert(img.px(x1 as int - 1, y0 as int));
        }
        if x1 as int - 1 == x0 as int {
            assert(p4 == bl);
            assert(walk_obj(img, bl, br, Some(Direction::South), obj_br, fuel_br) == obj_br);
        } else {
            assert(p4 != bl);
            lemma_rect_is_candidate(img, x0, y0, x1, y1, x1 as int - 1, y0 as int);
            assert(!spec_is_candidate(img, p4));
            lemma_walk_obj_step(img, bl, br, Some(Direction::South), obj_br, fuel_br, p4);
            lemma_rect_walk_south(
                img,
                x0,
                y0,
                x1,
                y1,
                obj_br,
                x1 as int - 1,
                (fuel_br - 1) as nat,
            );
        }
        assert(spec_trace(img, bl).0 =~= seq![bl, tl, tr, br]);
    }
    // Every emitted vertex was visited, so all four pool entries are
    // claimed by the first trace.
    let tv = spec_trace(img, bl);
    assert forall|e: UVec2| tv.0.contains(e) implies tv.1.contains(e) by {
        lemma_walk_obj_in_vis(img, bl, bl, None, seq![bl], seq![bl], fuel, e);
    }
    assert(tv.1.contains(br)) by {
        assert(tv.0[3] == br);
    }
    assert(tv.1.contains(tl)) by {
        assert(tv.0[1] == tl);
    }
    assert(tv.1.contains(tr)) by {
        assert(tv.0[2] == tr);
    }
    let claimed0 = Seq::new(pool.len(), |j: int| false);
    let marked = spec_mark(pool, claimed0, tv.1);
    assert(!claimed0[0]);
    assert(marked[1] && marked[2] && marked[3]);
    assert(spec_extract_from(img, pool, marked, 4) == Seq::<Seq<UVec2>>::empty());
    assert(spec_extract_from(img, pool, marked, 3) == Seq::<Seq<UVec2>>::empty());
    assert(spec_extract_from(img, pool, marked, 2) == Seq::<Seq<UVec2>>::empty());
    assert(spec_extract_from(img, pool, marked, 1) == Seq::<Seq<UVec2>>::empty());
    assert(spec_polygons(img) == seq![tv.0] + Seq::<Seq<UVec2>>::empty());
    assert(seq![tv.0] + Seq::<Seq<UVec2>>::empty() =~= seq![seq![bl, tl, tr, br]]);
}

/// In an image whose only foreground pixel is `pt`, the candidates among
/// the first `n` grid points are `pt` alone once the scan has passed it.
proof fn lemma_candidates_upto_isolated(img: BinImage, pt: UVec2, n: int)
    requires
        img.px(pt.x as int, pt.y as int),
        forall|x: int, y: int| #[trigger] img.px(x, y) ==> x == pt.x as int && y == pt.y as int,
        spec_is_candidate(img, pt),
        0 <= n <= spec_grid(img).len(),
    ensures
        spec_candidates_upto(img, n) == if n <= pt.y * img.spec_width() + pt.x {
            Seq::<UVec2>::empty()
        } else {
            seq![pt]
        },
    decreases n,
{
    let w = img.spec_width() as int;
    let idx = pt.y * w + pt.x;
    assert(0 <= pt.x < w);
    if n > 0 {
        lemma_candidates_upto_isolated(img, pt, n - 1);
        let p = spec_grid(img)[n - 1];
        lemma_mod_division_less_than_divisor(n - 1, w);
        lemma_fundamental_div_mod(n - 1, w);
        lemma_div_pos_is_pos(n - 1, w);
        lemma_multiply_divide_lt(n - 1, w, img.spec_height() as int);
        if n - 1 == idx {
            lemma_div_multiples_vanish_fancy(pt.y as int, pt.x as int, w);
            assert(w * pt.y == pt.y * w) by (nonlinear_arith);
            assert((n - 1) / w == pt.y as int);
            assert((n - 1) % w == pt.x as int);
            assert(p == pt);
            assert(spec_candidates_upto(img, n) =~= seq![pt]);
        } else {
            assert(!spec_is_candidate(img, p)) by {
                if img.px(p.x as int, p.y as int) {
                    assert(p.x as int == pt.x as int && p.y as int == pt.y as int);
                    assert((n - 1) % w == pt.x as int && (n - 1) / w == pt.y as int);
                    assert(n - 1 == w * ((n - 1) / w) + (n - 1) % w);
                    assert(w * (pt.y as int) == pt.y * w) by (nonlinear_arith);
                }
            }
            assert(spec_candidates_upto(img, n) == spec_candidates_upto(img, n - 1));
        }
    }
}

/// An isolated foreground pixel — a single on pixel with every neighbor
/// off — yields exactly one polygon, holding exactly that point.
pub proof fn lemma_isolated_pixel(img: BinImage, pt: UVec2)
    requires
        img.px(pt.x as int, pt.y as int),
        forall|x: int, y: int| #[trigger] img.px(x, y) ==> x == pt.x as int && y == pt.y as int,
    ensures
        spec_polygons(img) == seq![seq![pt]],
{
    let w = img.spec_width() as int;
    let h = img.spec_height() as int;
    let idx = pt.y * w + pt.x;
    crate::neighbors::lemma_neighbors_bits(img, pt.x as int, pt.y as int);
    assert(mask_at(img, pt) == 0);
    crate::neighbors::lemma_classification_total(0);
    assert(spec_is_candidate(img, pt));
    assert(spec_grid(img).len() == w * h);
    assert(0 <= idx < w * h) by {
        lemma_mul_inequality(pt.y as int + 1, h, w);
        assert((pt.y as int + 1) * w == pt.y * w + w) by (nonlinear_arith);
        assert(h * w == w * h) by (nonlinear_arith);
        assert(0 <= pt.y * w) by (nonlinear_arith)
            requires 0 <= pt.y as int && 0 <= w,
        ;
    }
    lemma_candidates_upto_isolated(img, pt, w * h);
    let pool = spec_candidates(img);
    assert(pool == seq![pt]);
    let tv = spec_trace(img, pt);
    assert(tv == (seq![pt], seq![pt])) by {
        assert(w * h >= 1);
    }
    let claimed0 = Seq::new(pool.len(), |j: int| false);
    assert(!claimed0[0]);
    assert(spec_extract_from(img, pool, spec_mark(pool, claimed0, tv.1), 1)
        == Seq::<Seq<UVec2>>::empty());
    assert(spec_polygons(img) == seq![tv.0] + Seq::<Seq<UVec2>>::empty());
    assert(seq![tv.0] + Seq::<Seq<UVec2>>::empty() =~= seq![seq![pt]]);
}

/// Collects every candidate corner of the image in scan order.
fn scan_candidates(img: &BinImage) -> (r: Vec<UVec2>)
    ensures
        r@ == spec_candidates(*img),
{
    let w = img.width();
    let area = img.area();
    let mut out: Vec<UVec2> = Vec::new();
    let mut i: usize = 0;
    while i < area
        invariant
            i <= area,
            w == img.spec_width(),
            area == img.spec_width() * img.spec_height(),
            out@ == spec_candidates_upto(*img, i as int),
        decreases area - i,
    {
        proof {
            assert(w > 0) by {
                if w == 0 {
                    assert(img.spec_width() * img.spec_height() == 0) by (nonlinear_arith)
                        requires img.spec_width() == 0,
                    ;
                }
            }
            lemma_mod_division_less_than_divisor(i as int, w as int);
            lemma_multiply_divide_lt(i as int, w as int, img.spec_height() as int);
        }
        let p = UVec2 { x: (i % (w as usize)) as u32, y: (i / (w as usize)) as u32 };
        proof {
            assert(spec_grid(*img)[i as int] == p);
        }
        if img.is_corner(p) {
            out.push(p);
        }
        i += 1;
    }
    out
}

/// One pixel step of the executable walk (see `spec_step`).
fn step_exec(img: &BinImage, cur: UVec2, d: Direction) -> (r: Option<UVec2>)
    ensures
        r == spec_step(*img, cur, d),
{
    let dx: i64 = match d {
        Direction::North => 0,
        Direction::South => 0,
        Direction::East => 1,
        Direction::West => -1,
        Direction::Northeast => 1,
        Direction::Northwest => -1,
        Direction::Southeast => 1,
        Direction::Southwest => -1,
    };
    let dy: i64 = match d {
        Direction::North => 1,
        Direction::South => -1,
        Direction::East => 0,
        Direction::West => 0,
        Direction::Northeast => 1,
        Direction::Northwest => 1,
        Direction::Southeast => -1,
        Direction::Southwest => -1,
    };
    let nx: i64 = cur.x as i64 + dx;
    let ny: i64 = cur.y as i64 + dy;
    if nx < 0 || ny < 0 || nx > u32::MAX as i64 || ny > u32::MAX as i64 {
        return None;
    }
    let p = UVec2 { x: nx as u32, y: ny as u32 };
    if img.get(p) {
        Some(p)
    } else {
        None
    }
}

/// Runs the boundary walk from `start` to completion; yields the vertex
/// list and the visited list.
fn walk(img: &BinImage, start: UVec2) -> (r: (Vec<UVec2>, Vec<UVec2>))
    ensures
        r.0@ == spec_trace(*img, start).0,
        r.1@ == spec_trace(*img, start).1,
{
    let mut obj: Vec<UVec2> = Vec::new();
    obj.push(start);
    let mut vis: Vec<UVec2> = Vec::new();
    vis.push(start);
    let mut cur = start;
    let mut prev: Option<Direction> = None;
    let mut fuel: usize = img.area();
    proof {
        assert(obj@ =~= seq![start]);
        assert(vis@ =~= seq![start]);
    }
    loop
        invariant_except_break
            spec_walk(*img, start, cur, prev, obj@, vis@, fuel as nat) == spec_trace(*img, start),
        ensures
            obj@ == spec_trace(*img, start).0,
            vis@ == spec_trace(*img, start).1,
        decreases fuel,
    {
        if fuel == 0 {
            break ;
        }
        let m = img.get_neighbors(cur);
        if m == 0 || m == 255 {
            break ;
        }
        let d = Direction::next_direction(prev, Neighbors(m));
        match step_exec(img, cur, d) {
            None => {
                break ;
            },
            Some(nxt) => {
                if nxt.x == start.x && nxt.y == start.y {
                    break ;
                }
                if img.is_corner(nxt) {
                    obj.push(nxt);
                }
                vis.push(nxt);
                cur = nxt;
                prev = Some(d);
                fuel = fuel - 1;
            },
        }
    }
    (obj, vis)
}

/// Membership test against the visited list.
fn vec_contains(v: &Vec<UVec2>, p: UVec2) -> (r: bool)
    ensures
        r == v@.contains(p),
{
    let mut i: usize = 0;
    while i < v.len()
        invariant
            i <= v@.len(),
            forall|k: int| 0 <= k < i ==> v@[k] != p,
        decreases v@.len() - i,
    {
        if v[i].x == p.x && v[i].y == p.y {
            proof {
                assert(v@[i as int] == p);
            }
            return true;
        }
        i += 1;
    }
    false
}

/// Claims every pool entry that the walk visited (see `spec_mark`).
fn mark_claimed(corners: &Vec<UVec2>, claimed: &mut Vec<bool>, vis: &Vec<UVec2>)
    requires
        old(claimed)@.len() == corners@.len(),
    ensures
        final(claimed)@ == spec_mark(corners@, old(claimed)@, vis@),
{
    let n = corners.len();
    let mut j: usize = 0;
    while j < n
        invariant
            n == corners@.len(),
            claimed@.len() == n,
            old(claimed)@.len() == n,
            j <= n,
            forall|k: int|
                0 <= k < j ==> claimed@[k] == (old(claimed)@[k] || vis@.contains(corners@[k])),
            forall|k: int| j <= k < n ==> claimed@[k] == old(claimed)@[k],
        decreases n - j,
    {
        let ghost body_claimed = claimed@;
        let cj = corners[j];
        let already = claimed[j];
        let hit = vec_contains(vis, cj);
        if !already && hit {
            claimed.set(j, true);
        }
        proof {
            assert forall|k: int| 0 <= k < j + 1 implies claimed@[k] == (old(claimed)@[k]
                || vis@.contains(corners@[k])) by {
                if k == j as int {
                    assert(cj == corners@[k]);
                    assert(hit == vis@.contains(corners@[k]));
                    if !already && hit {
                        assert(claimed@[k] == true);
                    } else {
                        assert(claimed@[k] == body_claimed[k]);
                        assert(body_claimed[k] == old(claimed)@[k]);
                    }
                } else {
                    assert(claimed@[k] == body_claimed[k]);
                }
            }
            assert forall|k: int| j + 1 <= k < n implies claimed@[k] == old(claimed)@[k] by {
                assert(claimed@[k] == body_claimed[k]);
            }
        }
        j += 1;
    }
    proof {
        assert(claimed@ =~= spec_mark(corners@, old(claimed)@, vis@));
    }
}

/// Walks the polygons of one image, one `next` call per polygon.
pub struct EdgesIter<'a> {
    image: &'a BinImage,
    corners: Vec<UVec2>,
    claimed: Vec<bool>,
    index: usize,
}

impl<'a> EdgesIter<'a> {
    /// One claim flag per pool entry, and the cursor never overruns the
    /// pool.  Established by `new` and preserved by `next`.
    pub closed spec fn wf(self) -> bool {
        self.claimed@.len() == self.corners@.len() && self.index <= self.corners@.len()
    }

    /// The polygons this iterator has yet to yield.
    pub closed spec fn remaining(self) -> Seq<Seq<UVec2>> {
        spec_extract_from(*self.image, self.corners@, self.claimed@, self.index as int)
    }

    pub closed spec fn spec_image(self) -> BinImage {
        *self.image
    }

    pub closed spec fn spec_index(self) -> int {
        self.index as int
    }

    pub closed spec fn pool_len(self) -> int {
        self.corners@.len() as int
    }

    /// The candidate pool, fixed at construction.
    pub closed spec fn pool(self) -> Seq<UVec2> {
        self.corners@
    }

    /// Scans the image and positions the iterator before its first polygon.
    pub fn new(image: &'a BinImage) -> (r: EdgesIter<'a>)
        ensures
            r.wf(),
            r.remaining() == spec_polygons(*image),
            r.spec_image() == *image,
            r.spec_index() == 0,
            r.pool_len() >= 0,
    {
        let corners = scan_candidates(image);
        let mut claimed: Vec<bool> = Vec::new();
        let n = corners.len();
        while claimed.len() < n
            invariant
                claimed@.len() <= n,
                forall|k: int| 0 <= k < claimed@.len() ==> !claimed@[k],
            decreases n - claimed@.len(),
        {
            claimed.push(false);
        }
        let r = EdgesIter { image, corners, claimed, index: 0 };
        proof {
            assert(r.claimed@ =~= Seq::new(spec_candidates(*image).len(), |j: int| false));
        }
        r
    }

    /// Yields the next polygon: seeds a walk at the first unclaimed
    /// candidate, claims everything the walk visited, and hands the
    /// vertex list out.  `None` once every candidate is claimed.
    pub fn next(&mut self) -> (r: Option<Vec<UVec2>>)
        requires
            old(self).wf(),
        ensures
            final(self).wf(),
            final(self).spec_image() == old(self).spec_image(),
            final(self).pool() == old(self).pool(),
            final(self).pool_len() == old(self).pool_len(),
            final(self).spec_index() <= final(self).pool_len(),
            match r {
                None => {
                    &&& old(self).remaining() == Seq::<Seq<UVec2>>::empty()
                    &&& final(self).remaining() == Seq::<Seq<UVec2>>::empty()
                },
                Some(poly) => {
                    &&& old(self).remaining() == seq![poly@] + final(self).remaining()
                    &&& final(self).spec_index() > old(self).spec_index()
                },
            },
    {
        while self.index < self.corners.len() && self.claimed[self.index]
            invariant
                self.image == old(self).image,
                self.corners@ == old(self).corners@,
                self.claimed@ == old(self).claimed@,
                self.claimed@.len() == self.corners@.len(),
                self.index <= self.corners@.len(),
                self.index >= old(self).index,
                spec_extract_from(
                    *self.image,
                    self.corners@,
                    self.claimed@,
                    self.index as int,
                ) == old(self).remaining(),
            decreases self.corners@.len() - self.index,
        {
            self.index = self.index + 1;
        }
        if self.index >= self.corners.len() {
            return None;
        }
        let start = self.corners[self.index];
        let pair = walk(self.image, start);
        let obj = pair.0;
        let vis = pair.1;
        let ghost pre_claimed = self.claimed@;
        let ghost pre_index = self.index as int;
        mark_claimed(&self.corners, &mut self.claimed, &vis);
        self.index = self.index + 1;
        proof {
            let tv = spec_trace(*self.image, self.corners@[pre_index]);
            assert(vis@ == tv.1);
            assert(self.claimed@ == spec_mark(self.corners@, pre_claimed, tv.1));
            assert(!pre_claimed[pre_index]);
            assert(spec_extract_from(*self.image, self.corners@, pre_claimed, pre_index) == seq![
                tv.0,
            ] + spec_extract_from(
                *self.image,
                self.corners@,
                spec_mark(self.corners@, pre_claimed, tv.1),
                pre_index + 1,
            ));
            assert(obj@ == tv.0);
        }
        Some(obj)
    }
}

} // verus!
