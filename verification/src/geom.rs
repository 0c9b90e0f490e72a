//! Fixed-point planar geometry: points, the integer square root, Euclidean
//! distance, and the circumcircle of a triangle.
//!
//! Coordinates are signed integers counting [`SUBPIX`] units per osu! pixel,
//! so a quarter pixel is representable exactly and all arithmetic is exact
//! integer arithmetic.

use vstd::prelude::*;

verus! {

/// Fixed-point units per osu! pixel.
pub const SUBPIX: i64 = 256;

/// Bound on the magnitude of any coordinate the geometry kernel works with,
/// in fixed-point units. Keeping every coordinate inside this range keeps
/// every intermediate product comfortably inside `i64`.
pub const COORD_LIMIT: i64 = 0x800_0000;

/// A point (or vector) of the playfield plane, in fixed-point units.
#[derive(Clone, Copy, Debug, PartialEq, Eq, Structural)]
pub struct Point {
    pub x: i64,
    pub y: i64,
}

impl Point {
    /// Both coordinates lie within `limit` of the origin.
    pub open spec fn bounded(self, limit: int) -> bool {
        -limit <= self.x && self.x <= limit && -limit <= self.y && self.y <= limit
    }

    pub fn new(x: i64, y: i64) -> (p: Point)
        ensures
            p.x == x,
            p.y == y,
    {
        Point { x, y }
    }
}

/// The floor of the real square root of `n` (meaningful for `n >= 0`).
pub closed spec fn sqrt_floor(n: int) -> int {
    choose|r: int| 0 <= r && #[trigger] (r * r) <= n && n < (r + 1) * (r + 1)
}

/// Constructs the witness that a floor square root exists.
proof fn sqrt_floor_witness(n: int) -> (r: int)
    requires
        n >= 0,
    ensures
        0 <= r,
        r * r <= n,
        n < (r + 1) * (r + 1),
    decreases n,
{
    if n == 0 {
        0
    } else {
        let p = sqrt_floor_witness(n - 1);
        if (p + 1) * (p + 1) <= n {
            assert(n < (p + 2) * (p + 2)) by (nonlinear_arith)
                requires
                    0 <= p,
                    n - 1 < (p + 1) * (p + 1),
                    (p + 1) * (p + 1) <= n,
            ;
            p + 1
        } else {
            p
        }
    }
}

/// `sqrt_floor(n)` is the unique nonnegative integer whose square is at most
/// `n` while the next square is beyond `n`.
pub proof fn lemma_sqrt_floor(n: int)
    requires
        n >= 0,
    ensures
        0 <= sqrt_floor(n),
        sqrt_floor(n) * sqrt_floor(n) <= n,
        n < (sqrt_floor(n) + 1) * (sqrt_floor(n) + 1),
{
    let w = sqrt_floor_witness(n);
    assert(0 <= w && w * w <= n && n < (w + 1) * (w + 1));
}

/// Two integers both satisfying the floor-square-root property are equal.
pub proof fn lemma_sqrt_floor_unique(n: int, r: int)
    requires
        0 <= r,
        r * r <= n,
        n < (r + 1) * (r + 1),
    ensures
        r == sqrt_floor(n),
{
    lemma_sqrt_floor(n);
    let s = sqrt_floor(n);
    if r < s {
        assert((r + 1) * (r + 1) <= s * s) by (nonlinear_arith)
            requires
                0 <= r,
                r + 1 <= s,
        ;
    }
    if s < r {
        assert((s + 1) * (s + 1) <= r * r) by (nonlinear_arith)
            requires
                0 <= s,
                s + 1 <= r,
        ;
    }
}

/// Integer square root by bisection.
pub fn isqrt(n: u64) -> (r: u64)
    ensures
        r == sqrt_floor(n as int),
{
    let mut lo: u64 = 0;
    let mut hi: u64 = 0x1_0000_0000;
    while lo + 1 < hi
        invariant
            lo < hi,
            hi <= 0x1_0000_0000,
            (lo as int) * (lo as int) <= n as int,
            (n as int) < (hi as int) * (hi as int),
        decreases hi - lo,
    {
        let mid = lo + (hi - lo) / 2;
        proof {
            assert((mid as int) * (mid as int) <= 0xFFFF_FFFF * 0xFFFF_FFFF)
                by (nonlinear_arith)
                requires
                    0 <= mid as int <= 0xFFFF_FFFF,
            ;
        }
        if mid * mid <= n {
            lo = mid;
        } else {
            hi = mid;
        }
    }
    proof {
        lemma_sqrt_floor_unique(n as int, lo as int);
    }
    lo
}

/// Squared Euclidean distance between two points.
pub open spec fn dist_sq_spec(a: Point, b: Point) -> int {
    (b.x - a.x) * (b.x - a.x) + (b.y - a.y) * (b.y - a.y)
}

/// Euclidean distance rounded down to a whole fixed-point unit.
pub open spec fn dist_spec(a: Point, b: Point) -> int {
    sqrt_floor(dist_sq_spec(a, b))
}

/// Euclidean distance between two in-range points.
pub fn dist(a: Point, b: Point) -> (d: i64)
    requires
        a.bounded(COORD_LIMIT as int),
        b.bounded(COORD_LIMIT as int),
    ensures
        d == dist_spec(a, b),
        0 <= d <= 4 * COORD_LIMIT,
{
    let dx = b.x - a.x;
    let dy = b.y - a.y;
    proof {
        assert(0 <= (dx as int) * (dx as int) <= 0x1000_0000 * 0x1000_0000)
            by (nonlinear_arith)
            requires
                -0x1000_0000 <= dx as int <= 0x1000_0000,
        ;
        assert(0 <= (dy as int) * (dy as int) <= 0x1000_0000 * 0x1000_0000)
            by (nonlinear_arith)
            requires
                -0x1000_0000 <= dy as int <= 0x1000_0000,
        ;
    }
    let s = (dx * dx + dy * dy) as u64;
    let r = isqrt(s);
    proof {
        lemma_sqrt_floor(s as int);
        let q = sqrt_floor(s as int);
        if q > 4 * COORD_LIMIT {
            assert(q * q > (4 * COORD_LIMIT as int) * (4 * COORD_LIMIT as int))
                by (nonlinear_arith)
                requires
                    q > 4 * COORD_LIMIT as int,
                    COORD_LIMIT as int > 0,
            ;
        }
    }
    r as i64
}

/// Each coordinate difference is bounded by the distance itself.
pub proof fn lemma_dist_dominates_axes(a: Point, b: Point)
    ensures
        -dist_spec(a, b) <= b.x - a.x <= dist_spec(a, b),
        -dist_spec(a, b) <= b.y - a.y <= dist_spec(a, b),
{
    let n = dist_sq_spec(a, b);
    let dx: int = b.x - a.x;
    let dy: int = b.y - a.y;
    assert(dx * dx >= 0) by (nonlinear_arith);
    assert(dy * dy >= 0) by (nonlinear_arith);
    lemma_sqrt_floor(n);
    let d = sqrt_floor(n);
    assert(-d <= dx <= d) by (nonlinear_arith)
        requires
            0 <= d,
            dx * dx + dy * dy < (d + 1) * (d + 1),
            dy * dy >= 0,
            dx * dx >= 0,
    ;
    assert(-d <= dy <= d) by (nonlinear_arith)
        requires
            0 <= d,
            dx * dx + dy * dy < (d + 1) * (d + 1),
            dy * dy >= 0,
            dx * dx >= 0,
    ;
}

/// The distance between two points is zero exactly when they coincide.
pub proof fn lemma_dist_zero(a: Point, b: Point)
    ensures
        dist_spec(a, b) == 0 <==> a == b,
{
    let n = dist_sq_spec(a, b);
    let dx: int = b.x - a.x;
    let dy: int = b.y - a.y;
    assert(dx * dx >= 0) by (nonlinear_arith);
    assert(dy * dy >= 0) by (nonlinear_arith);
    lemma_sqrt_floor(n);
    if a == b {
        assert(n == 0);
        lemma_sqrt_floor_unique(0, 0);
    } else {
        lemma_dist_dominates_axes(a, b);
        if dist_spec(a, b) == 0 {
            assert(b.x == a.x && b.y == a.y);
            assert(a == b);
        }
    }
}

/// Division truncating toward zero, as the machine division does.
pub open spec fn tdiv(a: int, b: int) -> int {
    if a >= 0 && b > 0 {
        a / b
    } else if a < 0 && b < 0 {
        (-a) / (-b)
    } else if a < 0 {
        -((-a) / b)
    } else {
        -(a / (-b))
    }
}

/// A quotient's magnitude stays under `lim` when the dividend stays under
/// `k * lim`.
pub proof fn lemma_tdiv_bound(a: int, k: int, lim: int)
    requires
        k > 0,
        lim >= 0,
        -(k * lim) <= a <= k * lim,
    ensures
        -lim <= tdiv(a, k) <= lim,
{
    if a >= 0 {
        vstd::arithmetic::div_mod::lemma_div_is_ordered(a, k * lim, k);
        vstd::arithmetic::div_mod::lemma_div_multiples_vanish(lim, k);
        vstd::arithmetic::div_mod::lemma_div_pos_is_pos(a, k);
    } else {
        vstd::arithmetic::div_mod::lemma_div_is_ordered(-a, k * lim, k);
        vstd::arithmetic::div_mod::lemma_div_multiples_vanish(lim, k);
        vstd::arithmetic::div_mod::lemma_div_pos_is_pos(-a, k);
    }
}

/// Halves a value, rounding toward zero.
pub fn tdiv2(a: i64) -> (r: i64)
    requires
        a != i64::MIN,
    ensures
        r as int == tdiv(a as int, 2),
{
    if a >= 0 {
        a / 2
    } else {
        -((-a) / 2)
    }
}

/// Quarters a value, rounding toward zero.
pub fn tdiv4(a: i64) -> (r: i64)
    requires
        a != i64::MIN,
    ensures
        r as int == tdiv(a as int, 4),
{
    if a >= 0 {
        a / 4
    } else {
        -((-a) / 4)
    }
}

/// Namespace for the circumcircle computation.
#[derive(Default)]
pub struct Math;

} // verus!
