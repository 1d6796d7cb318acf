//! Small geometric helpers: bounding boxes, centroids, and the ray-casting
//! point-in-polygon test.

use vstd::arithmetic::div_mod::lemma_div_by_multiple;
use vstd::arithmetic::div_mod::lemma_div_is_ordered;
use vstd::prelude::*;

use crate::point::UVec2;

verus! {

/// Sum of the x components of `s`.
pub open spec fn sum_x(s: Seq<UVec2>) -> int
    decreases s.len(),
{
    if s.len() == 0 {
        0
    } else {
        sum_x(s.drop_last()) + s.last().x
    }
}

/// Sum of the y components of `s`.
pub open spec fn sum_y(s: Seq<UVec2>) -> int
    decreases s.len(),
{
    if s.len() == 0 {
        0
    } else {
        sum_y(s.drop_last()) + s.last().y
    }
}

/// Each component sum is bounded by the length times the largest value a
/// component can take.
proof fn lemma_sum_bounds(s: Seq<UVec2>)
    ensures
        0 <= sum_x(s) <= s.len() * 0xffff_ffff,
        0 <= sum_y(s) <= s.len() * 0xffff_ffff,
    decreases s.len(),
{
    if s.len() > 0 {
        lemma_sum_bounds(s.drop_last());
        assert(s.len() * 0xffff_ffff == (s.len() - 1) * 0xffff_ffff + 0xffff_ffff)
            by (nonlinear_arith);
    }
}

/// The smallest and the largest coordinates over `polygon`, componentwise:
/// `None` exactly when the slice is empty, otherwise a pair `(mn, mx)` of
/// which each component bounds the respective component of every point and
/// is attained by one of them.
pub fn bounding_box(polygon: &[UVec2]) -> (r: Option<(UVec2, UVec2)>)
    ensures
        match r {
            None => polygon@.len() == 0,
            Some(pair) => {
                &&& polygon@.len() > 0
                &&& forall|i: int|
                    0 <= i < polygon@.len() ==> pair.0.x <= polygon@[i].x && polygon@[i].x
                        <= pair.1.x && pair.0.y <= polygon@[i].y && polygon@[i].y <= pair.1.y
                &&& exists|i: int| 0 <= i < polygon@.len() && polygon@[i].x == pair.0.x
                &&& exists|i: int| 0 <= i < polygon@.len() && polygon@[i].x == pair.1.x
                &&& exists|i: int| 0 <= i < polygon@.len() && polygon@[i].y == pair.0.y
                &&& exists|i: int| 0 <= i < polygon@.len() && polygon@[i].y == pair.1.y
            },
        },
{
    if polygon.len() == 0 {
        return None;
    }
    let first = polygon[0];
    let mut mn = first;
    let mut mx = first;
    let mut i: usize = 1;
    while i < polygon.len()
        invariant
            1 <= i <= polygon@.len(),
            forall|k: int|
                0 <= k < i ==> mn.x <= polygon@[k].x && polygon@[k].x <= mx.x && mn.y
                    <= polygon@[k].y && polygon@[k].y <= mx.y,
            exists|k: int| 0 <= k < i && polygon@[k].x == mn.x,
            exists|k: int| 0 <= k < i && polygon@[k].x == mx.x,
            exists|k: int| 0 <= k < i && polygon@[k].y == mn.y,
            exists|k: int| 0 <= k < i && polygon@[k].y == mx.y,
        decreases polygon@.len() - i,
    {
        let p = polygon[i];
        proof {
            assert(polygon@[i as int] == p);
        }
        mn = mn.min(p);
        mx = mx.max(p);
        i += 1;
    }
    Some((mn, mx))
}

/// The integer centroid: each component is the sum over all points divided
/// by the point count, rounding down.  `None` exactly when the slice is
/// empty.
pub fn center_of(polygon: &[UVec2]) -> (r: Option<UVec2>)
    ensures
        match r {
            None => polygon@.len() == 0,
            Some(c) => {
                &&& polygon@.len() > 0
                &&& c.x == sum_x(polygon@) / polygon@.len() as int
                &&& c.y == sum_y(polygon@) / polygon@.len() as int
            },
        },
{
    if polygon.len() == 0 {
        return None;
    }
    let mut sx: u128 = 0;
    let mut sy: u128 = 0;
    let mut i: usize = 0;
    while i < polygon.len()
        invariant
            i <= polygon@.len(),
            sx == sum_x(polygon@.take(i as int)),
            sy == sum_y(polygon@.take(i as int)),
            sx <= i * 0xffff_ffff,
            sy <= i * 0xffff_ffff,
        decreases polygon@.len() - i,
    {
        let p = polygon[i];
        proof {
            assert(polygon@.take(i + 1).drop_last() =~= polygon@.take(i as int));
            assert(polygon@.take(i + 1).last() == polygon@[i as int]);
            lemma_sum_bounds(polygon@.take(i as int));
            assert((i + 1) * 0xffff_ffff == i * 0xffff_ffff + 0xffff_ffff) by (nonlinear_arith);
        }
        sx = sx + p.x as u128;
        sy = sy + p.y as u128;
        i += 1;
    }
    proof {
        assert(polygon@.take(polygon@.len() as int) =~= polygon@);
        let len = polygon@.len() as int;
        lemma_div_is_ordered(sx as int, len * 0xffff_ffff, len);
        lemma_div_by_multiple(0xffff_ffff, len);
        lemma_div_is_ordered(0, sx as int, len);
        lemma_div_is_ordered(sy as int, len * 0xffff_ffff, len);
        lemma_div_is_ordered(0, sy as int, len);
        assert(len * 0xffff_ffff == 0xffff_ffff * len) by (nonlinear_arith);
    }
    let len: u128 = polygon.len() as u128;
    Some(UVec2 { x: (sx / len) as u32, y: (sy / len) as u32 })
}

/// Whether `(x, y)` lies on the closed segment from `a` to `b`: collinear
/// with it and within its bounding box.  A degenerate segment holds only
/// its single point.
pub open spec fn spec_on_segment(x: int, y: int, a: UVec2, b: UVec2) -> bool {
    &&& (b.x - a.x) * (y - a.y) == (b.y - a.y) * (x - a.x)
    &&& (if a.x <= b.x {
        a.x as int
    } else {
        b.x as int
    }) <= x <= (if a.x <= b.x {
        b.x as int
    } else {
        a.x as int
    })
    &&& (if a.y <= b.y {
        a.y as int
    } else {
        b.y as int
    }) <= y <= (if a.y <= b.y {
        b.y as int
    } else {
        a.y as int
    })
}

/// The vertex that follows vertex `i` on the implicit closed loop: its
/// successor, or the first vertex after the last one.
pub open spec fn loop_next(s: Seq<UVec2>, i: int) -> UVec2 {
    if i + 1 == s.len() {
        s[0]
    } else {
        s[i + 1]
    }
}

/// Whether `(x, y)` lies on the boundary of the closed loop through `s`:
/// on some edge, the closing edge from the last vertex back to the first
/// included.
pub open spec fn spec_on_boundary(x: int, y: int, s: Seq<UVec2>) -> bool {
    exists|i: int| 0 <= i < s.len() && spec_on_segment(x, y, s[i], loop_next(s, i))
}

/// Whether the horizontal ray from `(x, y)` toward larger x crosses the
/// edge between `a` and `b`: the edge spans the query row (lower end
/// included, upper end excluded) and its exact crossing lies strictly to
/// the right of the query point, compared without division.
pub open spec fn spec_edge_crosses(x: int, y: int, a: UVec2, b: UVec2) -> bool {
    let lox = if a.y <= b.y { a.x as int } else { b.x as int };
    let loy = if a.y <= b.y { a.y as int } else { b.y as int };
    let hix = if a.y <= b.y { b.x as int } else { a.x as int };
    let hiy = if a.y <= b.y { b.y as int } else { a.y as int };
    loy <= y < hiy && (x - lox) * (hiy - loy) < (y - loy) * (hix - lox)
}

/// Parity of the ray crossings over the loop edges from `i` on.
pub open spec fn spec_crossings(s: Seq<UVec2>, x: int, y: int, i: int) -> bool
    decreases s.len() - i,
{
    if i < 0 || i >= s.len() {
        false
    } else {
        spec_edge_crosses(x, y, s[i], loop_next(s, i)) != spec_crossings(s, x, y, i + 1)
    }
}

/// Ray-casting containment over the implicit closed loop: a point on the
/// boundary is contained at once; any other point is contained iff the
/// rightward ray crosses the loop an odd number of times.
pub open spec fn spec_in_polygon(x: int, y: int, s: Seq<UVec2>) -> bool {
    spec_on_boundary(x, y, s) || spec_crossings(s, x, y, 0)
}

/// Beyond the bounding box on the right, below, or above, the ray crosses
/// no edge and the point lies on no edge.  (To the left of the box the
/// crossing count alone decides, and it is settled by the edge walk.)
proof fn lemma_outside_no_crossings(s: Seq<UVec2>, x: int, y: int, i: int)
    requires
        (forall|j: int| 0 <= j < s.len() ==> x > #[trigger] s[j].x) || (forall|j: int|
            0 <= j < s.len() ==> y < #[trigger] s[j].y) || (forall|j: int|
            0 <= j < s.len() ==> y > #[trigger] s[j].y),
    ensures
        forall|k: int|
            0 <= k < s.len() ==> !spec_on_segment(x, y, #[trigger] s[k], loop_next(s, k)),
        !spec_crossings(s, x, y, i),
    decreases s.len() - i,
{
    assert forall|k: int|
        0 <= k < s.len() implies !spec_on_segment(x, y, #[trigger] s[k], loop_next(s, k)) by {
        let b = loop_next(s, k);
        assert(s.contains(b)) by {
            if k + 1 == s.len() {
                assert(s[0] == b);
            } else {
                assert(s[k + 1] == b);
            }
        }
        let jb = choose|jb: int| 0 <= jb < s.len() && s[jb] == b;
        assert(s[jb].x == b.x && s[jb].y == b.y);
    }
    if 0 <= i < s.len() {
        let a = s[i];
        let b = loop_next(s, i);
        assert(s.contains(b)) by {
            if i + 1 == s.len() {
                assert(s[0] == b);
            } else {
                assert(s[i + 1] == b);
            }
        }
        let jb = choose|jb: int| 0 <= jb < s.len() && s[jb] == b;
        assert(s[jb] == b);
        assert(!spec_edge_crosses(x, y, a, b)) by {
            let lox = if a.y <= b.y { a.x as int } else { b.x as int };
            let loy = if a.y <= b.y { a.y as int } else { b.y as int };
            let hix = if a.y <= b.y { b.x as int } else { a.x as int };
            let hiy = if a.y <= b.y { b.y as int } else { a.y as int };
            if loy <= y < hiy {
                assert((x - lox) * (hiy - loy) >= (y - loy) * (hix - lox)) by (nonlinear_arith)
                    requires
                        x - lox >= 1,
                        x - hix >= 1,
                        0 <= y - loy,
                        y - loy <= hiy - loy - 1,
                        1 <= hiy - loy,
                ;
            }
        }
        lemma_outside_no_crossings(s, x, y, i + 1);
    }
}

/// The executable boundary test of `spec_on_segment`.
fn on_segment_at(x: u32, y: u32, a: UVec2, b: UVec2) -> (r: bool)
    ensures
        r == spec_on_segment(x as int, y as int, a, b),
{
    let mnx = if a.x <= b.x { a.x } else { b.x };
    let mxx = if a.x <= b.x { b.x } else { a.x };
    let mny = if a.y <= b.y { a.y } else { b.y };
    let mxy = if a.y <= b.y { b.y } else { a.y };
    if x < mnx || x > mxx || y < mny || y > mxy {
        return false;
    }
    proof {
        lemma_diff_product_bounded(
            b.x as int - a.x as int,
            y as int - a.y as int,
            b.y as int - a.y as int,
            x as int - a.x as int,
        );
    }
    let lhs: i128 = (b.x as i128 - a.x as i128) * (y as i128 - a.y as i128);
    let rhs: i128 = (b.y as i128 - a.y as i128) * (x as i128 - a.x as i128);
    lhs == rhs
}

/// The executable crossing test of `spec_edge_crosses`.
fn crosses_at(x: u32, y: u32, a: UVec2, b: UVec2) -> (r: bool)
    ensures
        r == spec_edge_crosses(x as int, y as int, a, b),
{
    let lox = if a.y <= b.y { a.x } else { b.x };
    let loy = if a.y <= b.y { a.y } else { b.y };
    let hix = if a.y <= b.y { b.x } else { a.x };
    let hiy = if a.y <= b.y { b.y } else { a.y };
    if !(loy <= y && y < hiy) {
        return false;
    }
    proof {
        lemma_diff_product_bounded(
            x as int - lox as int,
            hiy as int - loy as int,
            y as int - loy as int,
            hix as int - lox as int,
        );
    }
    let lhs: i128 = (x as i128 - lox as i128) * (hiy as i128 - loy as i128);
    let rhs: i128 = (y as i128 - loy as i128) * (hix as i128 - lox as i128);
    lhs < rhs
}

/// Products of coordinate differences stay far inside the wide integer
/// range.
proof fn lemma_diff_product_bounded(p: int, q: int, r: int, t: int)
    requires
        -0x1_0000_0000 <= p <= 0x1_0000_0000,
        -0x1_0000_0000 <= q <= 0x1_0000_0000,
        -0x1_0000_0000 <= r <= 0x1_0000_0000,
        -0x1_0000_0000 <= t <= 0x1_0000_0000,
    ensures
        -0x1_0000_0000_0000_0000 <= p * q <= 0x1_0000_0000_0000_0000,
        -0x1_0000_0000_0000_0000 <= r * t <= 0x1_0000_0000_0000_0000,
{
    assert(-0x1_0000_0000_0000_0000 <= p * q <= 0x1_0000_0000_0000_0000) by (nonlinear_arith)
        requires
            -0x1_0000_0000 <= p <= 0x1_0000_0000,
            -0x1_0000_0000 <= q <= 0x1_0000_0000,
    ;
    assert(-0x1_0000_0000_0000_0000 <= r * t <= 0x1_0000_0000_0000_0000) by (nonlinear_arith)
        requires
            -0x1_0000_0000 <= r <= 0x1_0000_0000,
            -0x1_0000_0000 <= t <= 0x1_0000_0000,
    ;
}

/// Ray-casting point-in-polygon test over the implicit closed loop (edge
/// from the last vertex back to the first): a point lying exactly on an
/// edge is classified as contained; otherwise the parity of the ray
/// crossings decides.  Preceded by a bounding-box rejection on the three
/// sides where the rejection is exact by construction.
pub fn in_polygon(x: u32, y: u32, polygon: &[UVec2]) -> (r: bool)
    ensures
        r == spec_in_polygon(x as int, y as int, polygon@),
{
    let n: usize = polygon.len();
    if n == 0 {
        return false;
    }
    if let Some(pair) = bounding_box(polygon) {
        if x > pair.1.x || y < pair.0.y || y > pair.1.y {
            proof {
                lemma_outside_no_crossings(polygon@, x as int, y as int, 0);
            }
            return false;
        }
    }
    let mut inside = false;
    let mut i: usize = 0;
    while i < n
        invariant
            0 < n == polygon@.len(),
            i <= n,
            forall|k: int|
                0 <= k < i ==> !spec_on_segment(
                    x as int,
                    y as int,
                    #[trigger] polygon@[k],
                    loop_next(polygon@, k),
                ),
            (inside != spec_crossings(polygon@, x as int, y as int, i as int)) == spec_crossings(
                polygon@,
                x as int,
                y as int,
                0,
            ),
        decreases n - i,
    {
        let a = polygon[i];
        let b = if i + 1 == n {
            polygon[0]
        } else {
            polygon[i + 1]
        };
        proof {
            assert(b == loop_next(polygon@, i as int));
        }
        if on_segment_at(x, y, a, b) {
            proof {
                assert(spec_on_boundary(x as int, y as int, polygon@)) by {
                    assert(spec_on_segment(
                        x as int,
                        y as int,
                        polygon@[i as int],
                        loop_next(polygon@, i as int),
                    ));
                }
            }
            return true;
        }
        if crosses_at(x, y, a, b) {
            inside = !inside;
        }
        i += 1;
    }
    proof {
        assert(!spec_on_boundary(x as int, y as int, polygon@)) by {
            if spec_on_boundary(x as int, y as int, polygon@) {
                let k = choose|k: int|
                    0 <= k < polygon@.len() && spec_on_segment(
                        x as int,
                        y as int,
                        polygon@[k],
                        loop_next(polygon@, k),
                    );
                assert(!spec_on_segment(x as int, y as int, polygon@[k], loop_next(polygon@, k)));
            }
        }
        assert(!spec_crossings(polygon@, x as int, y as int, n as int));
    }
    inside
}

} // verus!
