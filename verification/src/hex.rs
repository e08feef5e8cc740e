//! Axial hex coordinates, the distance metric, and the parametrization of the
//! rings that make up the hexagonal board.
use vstd::prelude::*;

verus! {

/// Axial coordinate of one cell of the hexagonal board.
#[derive(Clone, Copy, Debug, PartialEq, Eq, Structural)]
pub struct Hex {
    pub x: i32,
    pub y: i32,
}

pub open spec fn abs_int(v: int) -> int {
    if v < 0 {
        -v
    } else {
        v
    }
}

/// Hex distance between two axial coordinates: the number of single-cell
/// steps needed to walk from one to the other.
pub open spec fn hex_dist(a: Hex, b: Hex) -> int {
    (abs_int(a.x - b.x) + abs_int(a.y - b.y) + abs_int((a.x + a.y) - (b.x + b.y))) / 2
}

/// Two cells are adjacent when they are one step apart.
pub open spec fn adjacent(a: Hex, b: Hex) -> bool {
    hex_dist(a, b) == 1
}

/// The origin cell, home of the goal tile.
pub open spec fn origin() -> Hex {
    Hex { x: 0, y: 0 }
}

impl Hex {
    /// The origin cell, home of the goal tile.
    pub fn zero() -> (r: Hex)
        ensures
            r == origin(),
    {
        Hex { x: 0, y: 0 }
    }
}

fn abs_i64(v: i64) -> (r: i64)
    requires
        v > i64::MIN,
    ensures
        r == abs_int(v as int),
{
    if v < 0 {
        -v
    } else {
        v
    }
}

/// Distance as an executable function; the coordinate bound keeps the
/// intermediate sums well inside `i64`.
pub fn distance(a: Hex, b: Hex) -> (r: u32)
    requires
        -1000000 <= a.x <= 1000000,
        -1000000 <= a.y <= 1000000,
        -1000000 <= b.x <= 1000000,
        -1000000 <= b.y <= 1000000,
    ensures
        r == hex_dist(a, b),
{
    let dx: i64 = a.x as i64 - b.x as i64;
    let dy: i64 = a.y as i64 - b.y as i64;
    let ds: i64 = (a.x as i64 + a.y as i64) - (b.x as i64 + b.y as i64);
    let total: i64 = abs_i64(dx) + abs_i64(dy) + abs_i64(ds);
    ((total as u64) / 2) as u32
}

/// The six axial unit directions, in counterclockwise order.
pub open spec fn dir_x(d: int) -> int {
    if d == 0 {
        1
    } else if d == 1 {
        0
    } else if d == 2 {
        -1
    } else if d == 3 {
        -1
    } else if d == 4 {
        0
    } else {
        1
    }
}

pub open spec fn dir_y(d: int) -> int {
    if d == 0 {
        0
    } else if d == 1 {
        1
    } else if d == 2 {
        1
    } else if d == 3 {
        0
    } else if d == 4 {
        -1
    } else {
        -1
    }
}

/// Direction two steps further counterclockwise: the walking direction of the
/// ring edge whose corner lies in direction `d`.
pub open spec fn dir_next2(d: int) -> int {
    if d < 4 {
        d + 2
    } else {
        d - 4
    }
}

/// `h` is the `i`-th cell of the edge of the ring of radius `r` around the
/// origin whose leading corner lies in axial direction `d`. For `0 <= i < r`
/// the six edges are disjoint and together cover the whole ring.
pub open spec fn is_ring_point(h: Hex, r: int, d: int, i: int) -> bool {
    h.x == dir_x(d) * r + dir_x(dir_next2(d)) * i && h.y == dir_y(d) * r + dir_y(dir_next2(d)) * i
}

/// A valid ring-edge slot: edge `d` of the ring of radius `r`, cell `i`.
pub open spec fn ring_slot(r: int, d: int, i: int) -> bool {
    r >= 1 && 0 <= d < 6 && 0 <= i < r
}

/// `h` lies on the half-open edge `d` of the rim of a board of the given
/// radius.
pub open spec fn on_edge(h: Hex, radius: int, d: int) -> bool {
    exists|ii: int| 0 <= ii < radius && #[trigger] is_ring_point(h, radius, d, ii)
}

/// Linear coordinate formulas for each of the six ring edges.
proof fn lemma_ring_shape(h: Hex, r: int, d: int, i: int)
    requires
        ring_slot(r, d, i),
        is_ring_point(h, r, d, i),
    ensures
        d == 0 ==> h.x == r - i && h.y == i,
        d == 1 ==> h.x == -i && h.y == r,
        d == 2 ==> h.x == -r && h.y == r - i,
        d == 3 ==> h.x == -r + i && h.y == -i,
        d == 4 ==> h.x == i && h.y == -r,
        d == 5 ==> h.x == r && h.y == -r + i,
{
    if d == 0 {
        assert(h.x == 1 * r + (-1) * i && h.y == 0 * r + 1 * i);
    } else if d == 1 {
        assert(h.x == 0 * r + (-1) * i && h.y == 1 * r + 0 * i);
    } else if d == 2 {
        assert(h.x == (-1) * r + 0 * i && h.y == 1 * r + (-1) * i);
    } else if d == 3 {
        assert(h.x == (-1) * r + 1 * i && h.y == 0 * r + (-1) * i);
    } else if d == 4 {
        assert(h.x == 0 * r + 1 * i && h.y == (-1) * r + 0 * i);
    } else {
        assert(h.x == 1 * r + 0 * i && h.y == (-1) * r + 1 * i);
    }
}

/// Every cell of a ring edge lies at distance exactly `r` from the origin.
pub proof fn lemma_ring_point_dist(h: Hex, r: int, d: int, i: int)
    requires
        ring_slot(r, d, i),
        is_ring_point(h, r, d, i),
    ensures
        hex_dist(Hex { x: 0, y: 0 }, h) == r,
{
    lemma_ring_shape(h, r, d, i);
}

/// Distinct ring-edge slots hold distinct cells.
pub proof fn lemma_ring_point_distinct(a: Hex, b: Hex, r: int, d: int, i: int, r2: int, d2: int, i2: int)
    requires
        ring_slot(r, d, i),
        ring_slot(r2, d2, i2),
        is_ring_point(a, r, d, i),
        is_ring_point(b, r2, d2, i2),
        !(r == r2 && d == d2 && i == i2),
    ensures
        a != b,
{
    lemma_ring_shape(a, r, d, i);
    lemma_ring_shape(b, r2, d2, i2);
    if r != r2 {
        lemma_ring_point_dist(a, r, d, i);
        lemma_ring_point_dist(b, r2, d2, i2);
    }
}

/// Distance zero pins a cell to the origin.
pub proof fn lemma_dist_zero(h: Hex)
    requires
        hex_dist(Hex { x: 0, y: 0 }, h) == 0,
    ensures
        h == (Hex { x: 0, y: 0 }),
{
}

/// Linear coordinate formulas determine membership of a ring edge.
proof fn lemma_ring_shape_rev(h: Hex, r: int, d: int, i: int)
    requires
        ring_slot(r, d, i),
        d == 0 ==> h.x == r - i && h.y == i,
        d == 1 ==> h.x == -i && h.y == r,
        d == 2 ==> h.x == -r && h.y == r - i,
        d == 3 ==> h.x == -r + i && h.y == -i,
        d == 4 ==> h.x == i && h.y == -r,
        d == 5 ==> h.x == r && h.y == -r + i,
    ensures
        is_ring_point(h, r, d, i),
{
    if d == 0 {
        assert(h.x == 1 * r + (-1) * i && h.y == 0 * r + 1 * i);
    } else if d == 1 {
        assert(h.x == 0 * r + (-1) * i && h.y == 1 * r + 0 * i);
    } else if d == 2 {
        assert(h.x == (-1) * r + 0 * i && h.y == 1 * r + (-1) * i);
    } else if d == 3 {
        assert(h.x == (-1) * r + 1 * i && h.y == 0 * r + (-1) * i);
    } else if d == 4 {
        assert(h.x == 0 * r + 1 * i && h.y == (-1) * r + 0 * i);
    } else {
        assert(h.x == 1 * r + 0 * i && h.y == (-1) * r + 1 * i);
    }
}

/// Every cell at distance `r >= 1` from the origin lies on exactly one
/// ring-edge slot of the ring of radius `r`: the six half-open edges cover
/// the whole ring.
pub proof fn lemma_ring_cover(h: Hex, r: int)
    requires
        r >= 1,
        hex_dist(Hex { x: 0, y: 0 }, h) == r,
    ensures
        exists|d: int, i: int| ring_slot(r, d, i) && #[trigger] is_ring_point(h, r, d, i),
{
    let x = h.x as int;
    let y = h.y as int;
    assert(abs_int(x) + abs_int(y) + abs_int(x + y) == 2 * r);
    if y == r && -r < x <= 0 {
        lemma_ring_shape_rev(h, r, 1, -x);
        assert(ring_slot(r, 1, -x) && is_ring_point(h, r, 1, -x));
    } else if x == -r && 0 < y <= r {
        lemma_ring_shape_rev(h, r, 2, r - y);
        assert(ring_slot(r, 2, r - y) && is_ring_point(h, r, 2, r - y));
    } else if x + y == -r && -r < y <= 0 {
        lemma_ring_shape_rev(h, r, 3, -y);
        assert(ring_slot(r, 3, -y) && is_ring_point(h, r, 3, -y));
    } else if y == -r && 0 <= x < r {
        lemma_ring_shape_rev(h, r, 4, x);
        assert(ring_slot(r, 4, x) && is_ring_point(h, r, 4, x));
    } else if x == r && -r <= y < 0 {
        lemma_ring_shape_rev(h, r, 5, r + y);
        assert(ring_slot(r, 5, r + y) && is_ring_point(h, r, 5, r + y));
    } else {
        assert(x + y == r && 0 < x <= r);
        lemma_ring_shape_rev(h, r, 0, y);
        assert(ring_slot(r, 0, y) && is_ring_point(h, r, 0, y));
    }
}

/// Executable construction of a ring-edge cell.
pub fn ring_point_at(r: u32, d: u32, i: u32) -> (h: Hex)
    requires
        1 <= r <= 64,
        d < 6,
        i < r,
    ensures
        is_ring_point(h, r as int, d as int, i as int),
{
    let ri: i32 = r as i32;
    let ii: i32 = i as i32;
    if d == 0 {
        Hex { x: ri - ii, y: ii }
    } else if d == 1 {
        Hex { x: -ii, y: ri }
    } else if d == 2 {
        Hex { x: -ri, y: ri - ii }
    } else if d == 3 {
        Hex { x: -ri + ii, y: -ii }
    } else if d == 4 {
        Hex { x: ii, y: -ri }
    } else {
        Hex { x: ri, y: -ri + ii }
    }
}

} // verus!
