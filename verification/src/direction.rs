//! The eight compass directions and the boundary-walking state machine.
//!
//! `next_direction` decides, from the neighbor mask of the current pixel and
//! the direction used to reach it, which way the boundary walk steps next.
//! The convention, applied uniformly:
//!
//! * On a straight run (an INTERIOR mask, see `spec_is_interior`) the walk
//!   keeps its incoming direction.
//! * On a bending mask the walk turns according to the geometry of the on
//!   neighbors; the turn never reverses the incoming direction outright.
//! * When no turn rule applies — in particular at a trace start, where there
//!   is no incoming direction — the first on neighbor in the fixed priority
//!   order North, South, East, West, Northeast, Northwest, Southeast,
//!   Southwest decides.

use vstd::prelude::*;

use crate::neighbors::has_flag;
use crate::neighbors::Neighbors;
use crate::neighbors::EAST;
use crate::neighbors::NORTH;
use crate::neighbors::NORTHEAST;
use crate::neighbors::NORTHWEST;
use crate::neighbors::SOUTH;
use crate::neighbors::SOUTHEAST;
use crate::neighbors::SOUTHWEST;
use crate::neighbors::WEST;
use crate::point::UVec2;

verus! {

/// One of the eight compass values; North is toward larger `y`.
#[derive(Clone, Copy, Debug, PartialEq, Eq, Structural)]
pub enum Direction {
    North,
    South,
    East,
    West,
    Northeast,
    Northwest,
    Southeast,
    Southwest,
}

/// The algebraic inverse: the direction pointing the opposite way.
pub open spec fn spec_reverse(d: Direction) -> Direction {
    match d {
        Direction::North => Direction::South,
        Direction::South => Direction::North,
        Direction::East => Direction::West,
        Direction::West => Direction::East,
        Direction::Northeast => Direction::Southwest,
        Direction::Northwest => Direction::Southeast,
        Direction::Southeast => Direction::Northwest,
        Direction::Southwest => Direction::Northeast,
    }
}

/// Reversal is an involution: reversing twice restores the direction.
pub proof fn lemma_reverse_involution(d: Direction)
    ensures
        spec_reverse(spec_reverse(d)) == d,
{
}

/// The step a direction takes along the x axis.
pub open spec fn dir_dx(d: Direction) -> int {
    match d {
        Direction::North => 0,
        Direction::South => 0,
        Direction::East => 1,
        Direction::West => -1,
        Direction::Northeast => 1,
        Direction::Northwest => -1,
        Direction::Southeast => 1,
        Direction::Southwest => -1,
    }
}

/// The step a direction takes along the y axis.
pub open spec fn dir_dy(d: Direction) -> int {
    match d {
        Direction::North => 1,
        Direction::South => -1,
        Direction::East => 0,
        Direction::West => 0,
        Direction::Northeast => 1,
        Direction::Northwest => 1,
        Direction::Southeast => -1,
        Direction::Southwest => -1,
    }
}

/// The start rule: the first on neighbor in the fixed priority order
/// North, South, East, West, Northeast, Northwest, Southeast, Southwest.
pub open spec fn spec_first_dir(m: u8) -> Direction {
    if has_flag(m, NORTH) {
        Direction::North
    } else if has_flag(m, SOUTH) {
        Direction::South
    } else if has_flag(m, EAST) {
        Direction::East
    } else if has_flag(m, WEST) {
        Direction::West
    } else if has_flag(m, NORTHEAST) {
        Direction::Northeast
    } else if has_flag(m, NORTHWEST) {
        Direction::Northwest
    } else if has_flag(m, SOUTHEAST) {
        Direction::Southeast
    } else {
        Direction::Southwest
    }
}

/// The neighbor flag a direction steps toward.
pub open spec fn dir_flag(d: Direction) -> u8 {
    match d {
        Direction::North => NORTH,
        Direction::South => SOUTH,
        Direction::East => EAST,
        Direction::West => WEST,
        Direction::Northeast => NORTHEAST,
        Direction::Northwest => NORTHWEST,
        Direction::Southeast => SOUTHEAST,
        Direction::Southwest => SOUTHWEST,
    }
}

/// The start rule always points at an on neighbor: any nonempty mask has a
/// first set flag in the priority order.
pub proof fn lemma_start_picks_on_neighbor(m: u8)
    requires
        m != 0,
    ensures
        has_flag(m, dir_flag(spec_first_dir(m))),
{
    assert((m & 0x80u8 == 0 && m & 0x40u8 == 0 && m & 0x20u8 == 0 && m & 0x10u8 == 0 && m & 0x08u8
        == 0 && m & 0x04u8 == 0 && m & 0x02u8 == 0 && m & 0x01u8 == 0) ==> m == 0) by (bit_vector);
}

/// The turn rule of the state machine: for a bending mask, how each
/// incoming direction continues; `None` where no rule applies and the
/// priority fallback decides.  Masks are grouped by their four cardinal
/// flags, refined further by the diagonals; INTERIOR masks pass the incoming
/// direction through unchanged.
pub open spec fn spec_turn(prev: Option<Direction>, m: u8) -> Option<Direction> {
    let n = has_flag(m, NORTH);
    let s = has_flag(m, SOUTH);
    let e = has_flag(m, EAST);
    let w = has_flag(m, WEST);
    let ne = has_flag(m, NORTHEAST);
    let nw = has_flag(m, NORTHWEST);
    let se = has_flag(m, SOUTHEAST);
    let sw = has_flag(m, SOUTHWEST);
    if !n && !s && !e && !w {
        // Pure diagonal masks.
        if ne && sw && !nw && !se {
            prev  // straight diagonal line, lower-left to upper-right
        } else if nw && se && !ne && !sw {
            prev  // straight diagonal line, upper-left to lower-right
        } else if se && sw && !ne && !nw {
            match prev {
                Some(Direction::Northeast) => Some(Direction::Southeast),
                Some(Direction::Northwest) => Some(Direction::Southwest),
                _ => None,
            }
        } else if nw && sw && !ne && !se {
            match prev {
                Some(Direction::Northeast) => Some(Direction::Northwest),
                Some(Direction::Southeast) => Some(Direction::Southwest),
                _ => None,
            }
        } else if ne && se && !nw && !sw {
            match prev {
                Some(Direction::Northwest) => Some(Direction::Northeast),
                Some(Direction::Southwest) => Some(Direction::Southeast),
                _ => None,
            }
        } else if ne && nw && !se && !sw {
            match prev {
                Some(Direction::Southeast) => Some(Direction::Northeast),
                Some(Direction::Southwest) => Some(Direction::Northwest),
                _ => None,
            }
        } else if !ne && nw && se && sw {
            match prev {
                Some(Direction::Northeast) => Some(Direction::Southeast),
                Some(Direction::Northwest) => Some(Direction::Northwest),
                Some(Direction::Southeast) => Some(Direction::Southwest),
                _ => None,
            }
        } else if ne && !nw && se && sw {
            match prev {
                Some(Direction::Northeast) => Some(Direction::Southeast),
                Some(Direction::Northwest) => Some(Direction::Northeast),
                Some(Direction::Southwest) => Some(Direction::Southwest),
                _ => None,
            }
        } else if ne && nw && !se && sw {
            match prev {
                Some(Direction::Northeast) => Some(Direction::Northeast),
                Some(Direction::Southeast) => Some(Direction::Southwest),
                Some(Direction::Southwest) => Some(Direction::Northwest),
                _ => None,
            }
        } else if ne && nw && se && !sw {
            match prev {
                Some(Direction::Northwest) => Some(Direction::Northeast),
                Some(Direction::Southeast) => Some(Direction::Southeast),
                Some(Direction::Southwest) => Some(Direction::Northwest),
                _ => None,
            }
        } else if ne && nw && se && sw {
            match prev {
                Some(Direction::Northeast) => Some(Direction::Southeast),
                Some(Direction::Northwest) => Some(Direction::Northeast),
                Some(Direction::Southeast) => Some(Direction::Southwest),
                Some(Direction::Southwest) => Some(Direction::Northwest),
                _ => None,
            }
        } else {
            None  // at most one diagonal: the fallback picks it
        }
    } else if !n && !s && !e && w {
        // West only.
        if ne && se {
            match prev {
                Some(Direction::East) => Some(Direction::Southeast),
                Some(Direction::Northwest) => Some(Direction::Northeast),
                Some(Direction::Southwest) => Some(Direction::West),
                _ => None,
            }
        } else if se {
            match prev {
                Some(Direction::Northwest) => Some(Direction::West),
                Some(Direction::East) => Some(Direction::Southeast),
                _ => None,
            }
        } else if ne {
            match prev {
                Some(Direction::East) => Some(Direction::Northeast),
                Some(Direction::Southwest) => Some(Direction::West),
                _ => None,
            }
        } else {
            None
        }
    } else if !n && !s && e && !w {
        // East only.
        if nw && sw {
            match prev {
                Some(Direction::West) => Some(Direction::Northwest),
                Some(Direction::Northeast) => Some(Direction::East),
                Some(Direction::Southeast) => Some(Direction::Southwest),
                _ => None,
            }
        } else if sw {
            match prev {
                Some(Direction::West) => Some(Direction::Southwest),
                Some(Direction::Northeast) => Some(Direction::East),
                _ => None,
            }
        } else if nw {
            match prev {
                Some(Direction::West) => Some(Direction::Northwest),
                Some(Direction::Southeast) => Some(Direction::East),
                _ => None,
            }
        } else {
            None
        }
    } else if !n && s && !e && !w {
        // South only.
        if ne && nw {
            match prev {
                Some(Direction::North) => Some(Direction::Northeast),
                Some(Direction::Southeast) => Some(Direction::South),
                Some(Direction::Southwest) => Some(Direction::Northwest),
                _ => None,
            }
        } else if nw {
            match prev {
                Some(Direction::North) => Some(Direction::Northwest),
                Some(Direction::Southeast) => Some(Direction::South),
                _ => None,
            }
        } else if ne {
            match prev {
                Some(Direction::North) => Some(Direction::Northeast),
                Some(Direction::Southwest) => Some(Direction::South),
                _ => None,
            }
        } else {
            None
        }
    } else if n && !s && !e && !w {
        // North only.
        if se && sw {
            match prev {
                Some(Direction::South) => Some(Direction::Southwest),
                Some(Direction::Northeast) => Some(Direction::Southeast),
                Some(Direction::Northwest) => Some(Direction::North),
                _ => None,
            }
        } else if sw {
            match prev {
                Some(Direction::South) => Some(Direction::Southwest),
                Some(Direction::Northeast) => Some(Direction::North),
                _ => None,
            }
        } else if se {
            match prev {
                Some(Direction::South) => Some(Direction::Southeast),
                Some(Direction::Northwest) => Some(Direction::North),
                _ => None,
            }
        } else {
            None
        }
    } else if !n && s && !e && w {
        // South and West: an inner corner toward the lower left.
        if ne {
            match prev {
                Some(Direction::North) => Some(Direction::Northeast),
                Some(Direction::East) => Some(Direction::South),
                Some(Direction::Southwest) => Some(Direction::West),
                _ => None,
            }
        } else {
            match prev {
                Some(Direction::North) => Some(Direction::West),
                Some(Direction::East) => Some(Direction::South),
                _ => None,
            }
        }
    } else if !n && s && e && !w {
        // South and East.
        if nw {
            match prev {
                Some(Direction::North) => Some(Direction::East),
                Some(Direction::West) => Some(Direction::Northwest),
                Some(Direction::Southeast) => Some(Direction::South),
                _ => None,
            }
        } else {
            match prev {
                Some(Direction::North) => Some(Direction::East),
                Some(Direction::West) => Some(Direction::South),
                _ => None,
            }
        }
    } else if n && !s && !e && w {
        // North and West.
        if se {
            match prev {
                Some(Direction::South) => Some(Direction::West),
                Some(Direction::East) => Some(Direction::Southeast),
                Some(Direction::Northwest) => Some(Direction::North),
                _ => None,
            }
        } else {
            match prev {
                Some(Direction::South) => Some(Direction::West),
                Some(Direction::East) => Some(Direction::North),
                _ => None,
            }
        }
    } else if n && !s && e && !w {
        // North and East.
        if sw {
            match prev {
                Some(Direction::South) => Some(Direction::Southwest),
                Some(Direction::West) => Some(Direction::North),
                Some(Direction::Northeast) => Some(Direction::East),
                _ => None,
            }
        } else {
            match prev {
                Some(Direction::South) => Some(Direction::East),
                Some(Direction::West) => Some(Direction::North),
                _ => None,
            }
        }
    } else if n && s && !e && !w {
        prev  // vertical straight run
    } else if !n && !s && e && w {
        prev  // horizontal straight run
    } else if !n && s && e && w {
        // All but North.
        if se && sw {
            prev  // solid south side: straight run
        } else {
            match prev {
                Some(Direction::North) => Some(Direction::East),
                Some(Direction::East) => Some(Direction::South),
                Some(Direction::West) => Some(Direction::West),
                _ => None,
            }
        }
    } else if n && !s && e && w {
        // All but South.
        if ne && nw {
            prev
        } else {
            match prev {
                Some(Direction::South) => Some(Direction::West),
                Some(Direction::East) => Some(Direction::East),
                Some(Direction::West) => Some(Direction::North),
                _ => None,
            }
        }
    } else if n && s && !e && w {
        // All but East.
        if nw && sw {
            prev
        } else {
            match prev {
                Some(Direction::North) => Some(Direction::North),
                Some(Direction::South) => Some(Direction::West),
                Some(Direction::East) => Some(Direction::South),
                _ => None,
            }
        }
    } else if n && s && e && !w {
        // All but West.
        if ne && se {
            prev
        } else {
            match prev {
                Some(Direction::North) => Some(Direction::East),
                Some(Direction::South) => Some(Direction::South),
                Some(Direction::West) => Some(Direction::North),
                _ => None,
            }
        }
    } else {
        // All four cardinals on: the off diagonals mark the open corners.
        if ne && nw && se && sw {
            prev  // fully surrounded
        } else if !ne && !nw && se && sw {
            match prev {
                Some(Direction::South) => Some(Direction::West),
                Some(Direction::East) => Some(Direction::East),
                Some(Direction::West) => Some(Direction::North),
                _ => None,
            }
        } else if !ne && nw && !se && sw {
            match prev {
                Some(Direction::North) => Some(Direction::East),
                Some(Direction::South) => Some(Direction::South),
                Some(Direction::West) => Some(Direction::North),
                _ => None,
            }
        } else if ne && nw && !se && !sw {
            match prev {
                Some(Direction::North) => Some(Direction::East),
                Some(Direction::East) => Some(Direction::South),
                Some(Direction::West) => Some(Direction::West),
                _ => None,
            }
        } else if ne && !nw && se && !sw {
            match prev {
                Some(Direction::North) => Some(Direction::North),
                Some(Direction::South) => Some(Direction::West),
                Some(Direction::East) => Some(Direction::South),
                _ => None,
            }
        } else if !ne && nw && se && sw {
            match prev {
                Some(Direction::South) => Some(Direction::East),
                Some(Direction::West) => Some(Direction::North),
                _ => None,
            }
        } else if ne && !nw && se && sw {
            match prev {
                Some(Direction::South) => Some(Direction::West),
                Some(Direction::East) => Some(Direction::North),
                _ => None,
            }
        } else if ne && nw && !se && sw {
            match prev {
                Some(Direction::North) => Some(Direction::East),
                Some(Direction::West) => Some(Direction::South),
                _ => None,
            }
        } else if ne && nw && se && !sw {
            match prev {
                Some(Direction::North) => Some(Direction::West),
                Some(Direction::East) => Some(Direction::South),
                _ => None,
            }
        } else {
            // At most one diagonal, or an opposite diagonal pair: a full
            // four-way saddle.
            match prev {
                Some(Direction::North) => Some(Direction::East),
                Some(Direction::South) => Some(Direction::West),
                Some(Direction::East) => Some(Direction::South),
                Some(Direction::West) => Some(Direction::North),
                _ => None,
            }
        }
    }
}

/// No saddle resolution reverses the walk outright: whenever a turn rule
/// applies, its answer differs from the exact opposite of the incoming
/// direction.  Only the priority fallback may turn back, at a dead end.
pub proof fn lemma_turn_never_reverses(prev: Direction, m: u8)
    ensures
        match spec_turn(Some(prev), m) {
            Some(r) => r != spec_reverse(prev),
            None => true,
        },
{
}

/// The full state machine: the turn rule where one applies, otherwise the
/// priority fallback.
pub open spec fn spec_next_direction(prev: Option<Direction>, m: u8) -> Direction {
    match spec_turn(prev, m) {
        Some(d) => d,
        None => spec_first_dir(m),
    }
}

/// Whether `p` lies exactly in direction `d` from `c`: on the same row,
/// column, or 45-degree diagonal, strictly on the `d` side.
pub open spec fn dir_match(d: Direction, c: UVec2, p: UVec2) -> bool {
    match d {
        Direction::North => p.x == c.x && p.y > c.y,
        Direction::South => p.x == c.x && p.y < c.y,
        Direction::East => p.y == c.y && p.x > c.x,
        Direction::West => p.y == c.y && p.x < c.x,
        Direction::Northeast => p.x > c.x && p.y > c.y && p.y - c.y == p.x - c.x,
        Direction::Northwest => p.x < c.x && p.y > c.y && p.y - c.y == c.x - p.x,
        Direction::Southeast => p.x > c.x && p.y < c.y && c.y - p.y == p.x - c.x,
        Direction::Southwest => p.x < c.x && p.y < c.y && c.y - p.y == c.x - p.x,
    }
}

/// Whether, along direction `d`, `p` is strictly closer to the ray origin
/// than `q` is.
pub open spec fn dir_closer(d: Direction, p: UVec2, q: UVec2) -> bool {
    match d {
        Direction::North => p.y < q.y,
        Direction::South => p.y > q.y,
        Direction::East => p.x < q.x,
        Direction::West => p.x > q.x,
        Direction::Northeast => p.y < q.y,
        Direction::Northwest => p.y < q.y,
        Direction::Southeast => p.y > q.y,
        Direction::Southwest => p.y > q.y,
    }
}

impl Direction {
    /// The direction pointing the opposite way.
    pub fn reverse(self) -> (r: Direction)
        ensures
            r == spec_reverse(self),
    {
        match self {
            Direction::North => Direction::South,
            Direction::South => Direction::North,
            Direction::East => Direction::West,
            Direction::West => Direction::East,
            Direction::Northeast => Direction::Southwest,
            Direction::Northwest => Direction::Southeast,
            Direction::Southeast => Direction::Northwest,
            Direction::Southwest => Direction::Northeast,
        }
    }

    /// Decides the next step of a boundary walk from the neighbor mask and
    /// the incoming direction (`None` at a trace start).  The empty and the
    /// full mask carry no usable geometry and never occur mid-trace.
    pub fn next_direction(previous_direction: Option<Direction>, neighbors: Neighbors) -> (r:
        Direction)
        requires
            neighbors.0 != 0,
            neighbors.0 != 255,
        ensures
            r == spec_next_direction(previous_direction, neighbors.0),
    {
        let m = neighbors.0;
        match Self::turn(previous_direction, m) {
            Some(d) => d,
            None => Self::first_dir(m),
        }
    }

    /// Finds, among `points`, the point lying exactly in direction `self`
    /// from `current` that is nearest to `current`, if any.
    pub fn find_in(self, current: UVec2, points: &[UVec2]) -> (r: Option<UVec2>)
        ensures
            match r {
                Some(q) => {
                    &&& points@.contains(q)
                    &&& dir_match(self, current, q)
                    &&& forall|k: int|
                        0 <= k < points@.len() && dir_match(self, current, points@[k])
                            ==> !dir_closer(self, points@[k], q)
                },
                None => forall|k: int|
                    0 <= k < points@.len() ==> !dir_match(self, current, points@[k]),
            },
    {
        let mut best: Option<UVec2> = None;
        let mut i: usize = 0;
        while i < points.len()
            invariant
                i <= points@.len(),
                match best {
                    Some(b) => {
                        &&& points@.contains(b)
                        &&& dir_match(self, current, b)
                        &&& forall|k: int|
                            0 <= k < i && dir_match(self, current, points@[k]) ==> !dir_closer(
                                self,
                                points@[k],
                                b,
                            )
                    },
                    None => forall|k: int| 0 <= k < i ==> !dir_match(self, current, points@[k]),
                },
            decreases points@.len() - i,
        {
            let p = points[i];
            proof {
                assert(points@[i as int] == p);
            }
            if Self::matches_dir(self, current, p) {
                best = match best {
                    Some(b) => if Self::closer(self, p, b) {
                        Some(p)
                    } else {
                        Some(b)
                    },
                    None => Some(p),
                };
            }
            i += 1;
        }
        best
    }

    /// The executable test of `dir_match`.
    fn matches_dir(d: Direction, c: UVec2, p: UVec2) -> (r: bool)
        ensures
            r == dir_match(d, c, p),
    {
        match d {
            Direction::North => p.x == c.x && p.y > c.y,
            Direction::South => p.x == c.x && p.y < c.y,
            Direction::East => p.y == c.y && p.x > c.x,
            Direction::West => p.y == c.y && p.x < c.x,
            Direction::Northeast => p.x > c.x && p.y > c.y && p.y - c.y == p.x - c.x,
            Direction::Northwest => p.x < c.x && p.y > c.y && p.y - c.y == c.x - p.x,
            Direction::Southeast => p.x > c.x && p.y < c.y && c.y - p.y == p.x - c.x,
            Direction::Southwest => p.x < c.x && p.y < c.y && c.y - p.y == c.x - p.x,
        }
    }

    /// The executable test of `dir_closer`.
    fn closer(d: Direction, p: UVec2, q: UVec2) -> (r: bool)
        ensures
            r == dir_closer(d, p, q),
    {
        match d {
            Direction::North => p.y < q.y,
            Direction::South => p.y > q.y,
            Direction::East => p.x < q.x,
            Direction::West => p.x > q.x,
            Direction::Northeast => p.y < q.y,
            Direction::Northwest => p.y < q.y,
            Direction::Southeast => p.y > q.y,
            Direction::Southwest => p.y > q.y,
        }
    }

    /// The executable priority fallback (see `spec_first_dir`).
    fn first_dir(m: u8) -> (r: Direction)
        requires
            m != 0,
        ensures
            r == spec_first_dir(m),
    {
        if m & NORTH != 0 {
            Direction::North
        } else if m & SOUTH != 0 {
            Direction::South
        } else if m & EAST != 0 {
            Direction::East
        } else if m & WEST != 0 {
            Direction::West
        } else if m & NORTHEAST != 0 {
            Direction::Northeast
        } else if m & NORTHWEST != 0 {
            Direction::Northwest
        } else if m & SOUTHEAST != 0 {
            Direction::Southeast
        } else {
            proof {
                assert(m & SOUTHWEST != 0) by (bit_vector)
                    requires
                        m != 0,
                        m & 0x80u8 == 0,
                        m & 0x40u8 == 0,
                        m & 0x20u8 == 0,
                        m & 0x10u8 == 0,
                        m & 0x08u8 == 0,
                        m & 0x04u8 == 0,
                        m & 0x02u8 == 0,
                ;
            }
            Direction::Southwest
        }
    }

    /// The executable turn rule (see `spec_turn`).
    #[verifier::rlimit(30)]
    fn turn(prev: Option<Direction>, m: u8) -> (r: Option<Direction>)
        ensures
            r == spec_turn(prev, m),
    {
        let n = m & NORTH != 0;
        let s = m & SOUTH != 0;
        let e = m & EAST != 0;
        let w = m & WEST != 0;
        let ne = m & NORTHEAST != 0;
        let nw = m & NORTHWEST != 0;
        let se = m & SOUTHEAST != 0;
        let sw = m & SOUTHWEST != 0;
        if !n && !s && !e && !w {
            if ne && sw && !nw && !se {
                prev
            } else if nw && se && !ne && !sw {
                prev
            } else if se && sw && !ne && !nw {
                match prev {
                    Some(Direction::Northeast) => Some(Direction::Southeast),
                    Some(Direction::Northwest) => Some(Direction::Southwest),
                    _ => None,
                }
            } else if nw && sw && !ne && !se {
                match prev {
                    Some(Direction::Northeast) => Some(Direction::Northwest),
                    Some(Direction::Southeast) => Some(Direction::Southwest),
                    _ => None,
                }
            } else if ne && se && !nw && !sw {
                match prev {
                    Some(Direction::Northwest) => Some(Direction::Northeast),
                    Some(Direction::Southwest) => Some(Direction::Southeast),
                    _ => None,
                }
            } else if ne && nw && !se && !sw {
                match prev {
                    Some(Direction::Southeast) => Some(Direction::Northeast),
                    Some(Direction::Southwest) => Some(Direction::Northwest),
                    _ => None,
                }
            } else if !ne && nw && se && sw {
                match prev {
                    Some(Direction::Northeast) => Some(Direction::Southeast),
                    Some(Direction::Northwest) => Some(Direction::Northwest),
                    Some(Direction::Southeast) => Some(Direction::Southwest),
                    _ => None,
                }
            } else if ne && !nw && se && sw {
                match prev {
                    Some(Direction::Northeast) => Some(Direction::Southeast),
                    Some(Direction::Northwest) => Some(Direction::Northeast),
                    Some(Direction::Southwest) => Some(Direction::Southwest),
                    _ => None,
                }
            } else if ne && nw && !se && sw {
                match prev {
                    Some(Direction::Northeast) => Some(Direction::Northeast),
                    Some(Direction::Southeast) => Some(Direction::Southwest),
                    Some(Direction::Southwest) => Some(Direction::Northwest),
                    _ => None,
                }
            } else if ne && nw && se && !sw {
                match prev {
                    Some(Direction::Northwest) => Some(Direction::Northeast),
                    Some(Direction::Southeast) => Some(Direction::Southeast),
                    Some(Direction::Southwest) => Some(Direction::Northwest),
                    _ => None,
                }
            } else if ne && nw && se && sw {
                match prev {
                    Some(Direction::Northeast) => Some(Direction::Southeast),
                    Some(Direction::Northwest) => Some(Direction::Northeast),
                    Some(Direction::Southeast) => Some(Direction::Southwest),
                    Some(Direction::Southwest) => Some(Direction::Northwest),
                    _ => None,
                }
            } else {
                None
            }
        } else if !n && !s && !e && w {
            if ne && se {
                match prev {
                    Some(Direction::East) => Some(Direction::Southeast),
                    Some(Direction::Northwest) => Some(Direction::Northeast),
                    Some(Direction::Southwest) => Some(Direction::West),
                    _ => None,
                }
            } else if se {
                match prev {
                    Some(Direction::Northwest) => Some(Direction::West),
                    Some(Direction::East) => Some(Direction::Southeast),
                    _ => None,
                }
            } else if ne {
                match prev {
                    Some(Direction::East) => Some(Direction::Northeast),
                    Some(Direction::Southwest) => Some(Direction::West),
                    _ => None,
                }
            } else {
                None
            }
        } else if !n && !s && e && !w {
            if nw && sw {
                match prev {
                    Some(Direction::West) => Some(Direction::Northwest),
                    Some(Direction::Northeast) => Some(Direction::East),
                    Some(Direction::Southeast) => Some(Direction::Southwest),
                    _ => None,
                }
            } else if sw {
                match prev {
                    Some(Direction::West) => Some(Direction::Southwest),
                    Some(Direction::Northeast) => Some(Direction::East),
                    _ => None,
                }
            } else if nw {
                match prev {
                    Some(Direction::West) => Some(Direction::Northwest),
                    Some(Direction::Southeast) => Some(Direction::East),
                    _ => None,
                }
            } else {
                None
            }
        } else if !n && s && !e && !w {
            if ne && nw {
                match prev {
                    Some(Direction::North) => Some(Direction::Northeast),
                    Some(Direction::Southeast) => Some(Direction::South),
                    Some(Direction::Southwest) => Some(Direction::Northwest),
                    _ => None,
                }
            } else if nw {
                match prev {
                    Some(Direction::North) => Some(Direction::Northwest),
                    Some(Direction::Southeast) => Some(Direction::South),
                    _ => None,
                }
            } else if ne {
                match prev {
                    Some(Direction::North) => Some(Direction::Northeast),
                    Some(Direction::Southwest) => Some(Direction::South),
                    _ => None,
                }
            } else {
                None
            }
        } else if n && !s && !e && !w {
            if se && sw {
                match prev {
                    Some(Direction::South) => Some(Direction::Southwest),
                    Some(Direction::Northeast) => Some(Direction::Southeast),
                    Some(Direction::Northwest) => Some(Direction::North),
                    _ => None,
                }
            } else if sw {
                match prev {
                    Some(Direction::South) => Some(Direction::Southwest),
                    Some(Direction::Northeast) => Some(Direction::North),
                    _ => None,
                }
            } else if se {
                match prev {
                    Some(Direction::South) => Some(Direction::Southeast),
                    Some(Direction::Northwest) => Some(Direction::North),
                    _ => None,
                }
            } else {
                None
            }
        } else if !n && s && !e && w {
            if ne {
                match prev {
                    Some(Direction::North) => Some(Direction::Northeast),
                    Some(Direction::East) => Some(Direction::South),
                    Some(Direction::Southwest) => Some(Direction::West),
                    _ => None,
                }
            } else {
                match prev {
                    Some(Direction::North) => Some(Direction::West),
                    Some(Direction::East) => Some(Direction::South),
                    _ => None,
                }
            }
        } else if !n && s && e && !w {
            if nw {
                match prev {
                    Some(Direction::North) => Some(Direction::East),
                    Some(Direction::West) => Some(Direction::Northwest),
                    Some(Direction::Southeast) => Some(Direction::South),
                    _ => None,
                }
            } else {
                match prev {
                    Some(Direction::North) => Some(Direction::East),
                    Some(Direction::West) => Some(Direction::South),
                    _ => None,
                }
            }
        } else if n && !s && !e && w {
            if se {
                match prev {
                    Some(Direction::South) => Some(Direction::West),
                    Some(Direction::East) => Some(Direction::Southeast),
                    Some(Direction::Northwest) => Some(Direction::North),
                    _ => None,
                }
            } else {
                match prev {
                    Some(Direction::South) => Some(Direction::West),
                    Some(Direction::East) => Some(Direction::North),
                    _ => None,
                }
            }
        } else if n && !s && e && !w {
            if sw {
                match prev {
                    Some(Direction::South) => Some(Direction::Southwest),
                    Some(Direction::West) => Some(Direction::North),
                    Some(Direction::Northeast) => Some(Direction::East),
                    _ => None,
                }
            } else {
                match prev {
                    Some(Direction::South) => Some(Direction::East),
                    Some(Direction::West) => Some(Direction::North),
                    _ => None,
                }
            }
        } else if n && s && !e && !w {
            prev
        } else if !n && !s && e && w {
            prev
        } else if !n && s && e && w {
            if se && sw {
                prev
            } else {
                match prev {
                    Some(Direction::North) => Some(Direction::East),
                    Some(Direction::East) => Some(Direction::South),
                    Some(Direction::West) => Some(Direction::West),
                    _ => None,
                }
            }
        } else if n && !s && e && w {
            if ne && nw {
                prev
            } else {
                match prev {
                    Some(Direction::South) => Some(Direction::West),
                    Some(Direction::East) => Some(Direction::East),
                    Some(Direction::West) => Some(Direction::North),
                    _ => None,
                }
            }
        } else if n && s && !e && w {
            if nw && sw {
                prev
            } else {
                match prev {
                    Some(Direction::North) => Some(Direction::North),
                    Some(Direction::South) => Some(Direction::West),
                    Some(Direction::East) => Some(Direction::South),
                    _ => None,
                }
            }
        } else if n && s && e && !w {
            if ne && se {
                prev
            } else {
                match prev {
                    Some(Direction::North) => Some(Direction::East),
                    Some(Direction::South) => Some(Direction::South),
                    Some(Direction::West) => Some(Direction::North),
                    _ => None,
                }
            }
        } else {
            if ne && nw && se && sw {
                prev
            } else if !ne && !nw && se && sw {
                match prev {
                    Some(Direction::South) => Some(Direction::West),
                    Some(Direction::East) => Some(Direction::East),
                    Some(Direction::West) => Some(Direction::North),
                    _ => None,
                }
            } else if !ne && nw && !se && sw {
                match prev {
                    Some(Direction::North) => Some(Direction::East),
                    Some(Direction::South) => Some(Direction::South),
                    Some(Direction::West) => Some(Direction::North),
                    _ => None,
                }
            } else if ne && nw && !se && !sw {
                match prev {
                    Some(Direction::North) => Some(Direction::East),
                    Some(Direction::East) => Some(Direction::South),
                    Some(Direction::West) => Some(Direction::West),
                    _ => None,
                }
            } else if ne && !nw && se && !sw {
                match prev {
                    Some(Direction::North) => Some(Direction::North),
                    Some(Direction::South) => Some(Direction::West),
                    Some(Direction::East) => Some(Direction::South),
                    _ => None,
                }
            } else if !ne && nw && se && sw {
                match prev {
                    Some(Direction::South) => Some(Direction::East),
                    Some(Direction::West) => Some(Direction::North),
                    _ => None,
                }
            } else if ne && !nw && se && sw {
                match prev {
                    Some(Direction::South) => Some(Direction::West),
                    Some(Direction::East) => Some(Direction::North),
                    _ => None,
                }
            } else if ne && nw && !se && sw {
                match prev {
                    Some(Direction::North) => Some(Direction::East),
                    Some(Direction::West) => Some(Direction::South),
                    _ => None,
                }
            } else if ne && nw && se && !sw {
                match prev {
                    Some(Direction::North) => Some(Direction::West),
                    Some(Direction::East) => Some(Direction::South),
                    _ => None,
                }
            } else {
                match prev {
                    Some(Direction::North) => Some(Direction::East),
                    Some(Direction::South) => Some(Direction::West),
                    Some(Direction::East) => Some(Direction::South),
                    Some(Direction::West) => Some(Direction::North),
                    _ => None,
                }
            }
        }
    }
}

} // verus!
