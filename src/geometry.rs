//! Fixed-point plane geometry: points, world bounds and circle overlap.
use vstd::prelude::*;

verus! {

/// Fixed-point steps in one world unit.
pub const UNIT: i64 = 1000;

/// Side of the square world, in fixed-point steps (2000 world units).
pub const WORLDSIZE: i64 = 2_000_000;

/// Largest magnitude a stored coordinate may have; values beyond it saturate.
pub const COORD_LIMIT: i64 = 1_000_000_000_000;

/// A point or a vector of the plane, in fixed-point steps.
#[derive(Clone, Copy, Debug, PartialEq, Eq, Structural)]
pub struct Point {
    pub x: i64,
    pub y: i64,
}

pub open spec fn coord_ok(c: int) -> bool {
    -COORD_LIMIT <= c <= COORD_LIMIT
}

pub open spec fn in_world_coord(c: int) -> bool {
    0 <= c <= WORLDSIZE
}

pub open spec fn clamp_spec(c: int, lo: int, hi: int) -> int {
    if c < lo {
        lo
    } else if c > hi {
        hi
    } else {
        c
    }
}

/// Squared Euclidean distance between two points.
pub open spec fn dist_sq(a: Point, b: Point) -> int {
    (a.x - b.x) * (a.x - b.x) + (a.y - b.y) * (a.y - b.y)
}

/// Two circles overlap when the squared distance of their centres is at most
/// the square of the sum of their radii (touching counts).
pub open spec fn overlap(a: Point, ra: int, b: Point, rb: int) -> bool {
    dist_sq(a, b) <= (ra + rb) * (ra + rb)
}

/// A displacement of velocity `v` over `ms` milliseconds at 16 ms per step,
/// truncated toward zero.
pub open spec fn scaled(v: int, ms: int) -> int {
    if v >= 0 {
        (v * ms) / 16
    } else {
        -(((-v) * ms) / 16)
    }
}

impl Point {
    pub open spec fn wf(self) -> bool {
        coord_ok(self.x as int) && coord_ok(self.y as int)
    }

    pub open spec fn in_world(self) -> bool {
        in_world_coord(self.x as int) && in_world_coord(self.y as int)
    }

    /// The point with each coordinate saturated to the storable range.
    pub open spec fn bounded_spec(self) -> Point {
        Point {
            x: clamp_spec(self.x as int, -COORD_LIMIT as int, COORD_LIMIT as int) as i64,
            y: clamp_spec(self.y as int, -COORD_LIMIT as int, COORD_LIMIT as int) as i64,
        }
    }

    /// The point with each coordinate clamped into the world square.
    pub open spec fn clamped_spec(self) -> Point {
        Point {
            x: clamp_spec(self.x as int, 0, WORLDSIZE as int) as i64,
            y: clamp_spec(self.y as int, 0, WORLDSIZE as int) as i64,
        }
    }

    /// `self + d`, each coordinate saturated to the storable range.
    pub open spec fn offset_spec(self, d: Point) -> Point {
        Point {
            x: clamp_spec(self.x + d.x, -COORD_LIMIT as int, COORD_LIMIT as int) as i64,
            y: clamp_spec(self.y + d.y, -COORD_LIMIT as int, COORD_LIMIT as int) as i64,
        }
    }

    /// `self + v * ms / 16`, each coordinate saturated to the storable range.
    pub open spec fn advanced_spec(self, v: Point, ms: int) -> Point {
        Point {
            x: clamp_spec(self.x + scaled(v.x as int, ms), -COORD_LIMIT as int, COORD_LIMIT as int) as i64,
            y: clamp_spec(self.y + scaled(v.y as int, ms), -COORD_LIMIT as int, COORD_LIMIT as int) as i64,
        }
    }

    pub fn new(x: i64, y: i64) -> (r: Point)
        ensures
            r.x == x,
            r.y == y,
    {
        Point { x, y }
    }

    /// Saturates each coordinate to the storable range.
    pub fn bounded(self) -> (r: Point)
        ensures
            r == self.bounded_spec(),
            r.wf(),
    {
        Point {
            x: clamp_i64(self.x, -COORD_LIMIT, COORD_LIMIT),
            y: clamp_i64(self.y, -COORD_LIMIT, COORD_LIMIT),
        }
    }

    /// Clamps each coordinate into the world square.
    pub fn clamped(self) -> (r: Point)
        ensures
            r == self.clamped_spec(),
            r.in_world(),
            r.wf(),
    {
        Point { x: clamp_i64(self.x, 0, WORLDSIZE), y: clamp_i64(self.y, 0, WORLDSIZE) }
    }

    /// Adds a displacement, saturating at the storable range.
    pub fn offset(self, d: Point) -> (r: Point)
        requires
            self.wf(),
        ensures
            r == self.offset_spec(d),
            r.wf(),
    {
        let x = self.x as i128 + d.x as i128;
        let y = self.y as i128 + d.y as i128;
        Point {
            x: clamp_i128(x, -COORD_LIMIT as i128, COORD_LIMIT as i128) as i64,
            y: clamp_i128(y, -COORD_LIMIT as i128, COORD_LIMIT as i128) as i64,
        }
    }

    /// Moves by velocity `v` for `ms` milliseconds, at 16 ms per velocity step.
    pub fn advanced(self, v: Point, ms: u64) -> (r: Point)
        requires
            self.wf(),
            v.wf(),
        ensures
            r == self.advanced_spec(v, ms as int),
            r.wf(),
    {
        let x = self.x as i128 + scale(v.x, ms);
        let y = self.y as i128 + scale(v.y, ms);
        Point {
            x: clamp_i128(x, -COORD_LIMIT as i128, COORD_LIMIT as i128) as i64,
            y: clamp_i128(y, -COORD_LIMIT as i128, COORD_LIMIT as i128) as i64,
        }
    }
}

fn clamp_i64(c: i64, lo: i64, hi: i64) -> (r: i64)
    requires
        lo <= hi,
    ensures
        r == clamp_spec(c as int, lo as int, hi as int),
{
    if c < lo {
        lo
    } else if c > hi {
        hi
    } else {
        c
    }
}

fn clamp_i128(c: i128, lo: i128, hi: i128) -> (r: i128)
    requires
        lo <= hi,
    ensures
        r == clamp_spec(c as int, lo as int, hi as int),
{
    if c < lo {
        lo
    } else if c > hi {
        hi
    } else {
        c
    }
}

fn scale(v: i64, ms: u64) -> (r: i128)
    requires
        coord_ok(v as int),
    ensures
        r == scaled(v as int, ms as int),
        -COORD_LIMIT * 0x1_0000_0000_0000_0000 <= r <= COORD_LIMIT * 0x1_0000_0000_0000_0000,
{
    let m = ms as i128;
    if v >= 0 {
        let a = v as i128;
        assert(0 <= a * m <= COORD_LIMIT * 0x1_0000_0000_0000_0000) by (nonlinear_arith)
            requires
                0 <= a <= COORD_LIMIT,
                0 <= m < 0x1_0000_0000_0000_0000,
        ;
        (a * m) / 16
    } else {
        let a = -(v as i128);
        assert(0 <= a * m <= COORD_LIMIT * 0x1_0000_0000_0000_0000) by (nonlinear_arith)
            requires
                0 <= a <= COORD_LIMIT,
                0 <= m < 0x1_0000_0000_0000_0000,
        ;
        -((a * m) / 16)
    }
}

/// Squared distance between two storable points.
pub fn distance_squared(a: Point, b: Point) -> (r: u128)
    requires
        a.wf(),
        b.wf(),
    ensures
        r == dist_sq(a, b),
{
    let dx = a.x as i128 - b.x as i128;
    let dy = a.y as i128 - b.y as i128;
    let ax = abs128(dx);
    let ay = abs128(dy);
    assert(ax * ax <= 4 * COORD_LIMIT * COORD_LIMIT && ax * ax == dx * dx) by (nonlinear_arith)
        requires
            0 <= ax <= 2 * COORD_LIMIT,
            ax == dx || ax == -dx,
    ;
    assert(ay * ay <= 4 * COORD_LIMIT * COORD_LIMIT && ay * ay == dy * dy) by (nonlinear_arith)
        requires
            0 <= ay <= 2 * COORD_LIMIT,
            ay == dy || ay == -dy,
    ;
    (ax * ax) + (ay * ay)
}

fn abs128(d: i128) -> (r: u128)
    requires
        -2 * COORD_LIMIT <= d <= 2 * COORD_LIMIT,
    ensures
        r == (if d < 0 { -d } else { d as int }),
{
    if d < 0 {
        (-d) as u128
    } else {
        d as u128
    }
}

/// Whether a circle of radius `ra` at `a` overlaps one of radius `rb` at `b`.
pub fn overlaps(a: Point, ra: i64, b: Point, rb: i64) -> (r: bool)
    requires
        a.wf(),
        b.wf(),
        0 <= ra <= COORD_LIMIT,
        0 <= rb <= COORD_LIMIT,
    ensures
        r == overlap(a, ra as int, b, rb as int),
{
    let d = distance_squared(a, b);
    let s = (ra + rb) as u128;
    assert(s * s <= 4 * COORD_LIMIT * COORD_LIMIT) by (nonlinear_arith)
        requires
            0 <= s <= 2 * COORD_LIMIT,
    ;
    d <= s * s
}

/// Overlap does not depend on which circle is named first.
pub proof fn lemma_overlap_symmetric(a: Point, ra: int, b: Point, rb: int)
    ensures
        overlap(a, ra, b, rb) == overlap(b, rb, a, ra),
{
    assert((a.x - b.x) * (a.x - b.x) == (b.x - a.x) * (b.x - a.x)) by (nonlinear_arith);
    assert((a.y - b.y) * (a.y - b.y) == (b.y - a.y) * (b.y - a.y)) by (nonlinear_arith);
}

/// Circles whose centres lie exactly the sum of their radii apart overlap;
/// circles any farther apart do not.
pub proof fn lemma_overlap_boundary(a: Point, ra: int, b: Point, rb: int)
    requires
        ra >= 0,
        rb >= 0,
    ensures
        dist_sq(a, b) == (ra + rb) * (ra + rb) ==> overlap(a, ra, b, rb),
        dist_sq(a, b) > (ra + rb) * (ra + rb) ==> !overlap(a, ra, b, rb),
{
}

} // verus!
