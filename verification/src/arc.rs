//! Circular ("perfect") arcs: the circumcircle of the three control
//! points, and arc sampling at roughly one point per pixel of arc length.
//!
//! The sampler starts at the first control point and rotates its radius
//! vector by a fixed step angle, one pixel of arc per step, using a
//! fixed-point sine and cosine of the step. The traversal direction is the
//! orientation of the control-point triangle, which is exactly the arc
//! that passes through the middle control point.

use vstd::prelude::*;

use crate::geom::{
    dist, dist_spec, lemma_dist_dominates_axes, lemma_tdiv_bound, tdiv, Math, Point, COORD_LIMIT,
    SUBPIX,
};
use crate::spline::{SplineError, CTRL_LIMIT, LEN_LIMIT};

verus! {

/// Bound on a circumcircle centre coordinate (fixed-point units).
pub const CENTER_LIMIT: i64 = 0x200_0000;

/// Smallest supported arc radius: half a pixel.
pub const RADIUS_MIN: i64 = 128;

/// Largest supported arc radius (fixed-point units).
pub const RADIUS_LIMIT: i64 = 0x80_0000;

/// Bound on the rotating radius vector during sampling.
pub const V_LIMIT: i64 = 0x200_0000;

/// The fixed-point unit of the trigonometric scale.
pub const TRIG_ONE: i64 = 0x8000;

/// Twice the signed area of the triangle `p1 p2 p3`; zero exactly for
/// collinear points.
pub open spec fn orient2(p1: Point, p2: Point, p3: Point) -> int {
    p1.x * (p2.y - p3.y) + p2.x * (p3.y - p1.y) + p3.x * (p1.y - p2.y)
}

/// The squared norm of a point.
pub open spec fn norm_sq(p: Point) -> int {
    p.x * p.x + p.y * p.y
}

/// The x coordinate of the circumcentre, rounded toward zero.
pub open spec fn circumcenter_x(p1: Point, p2: Point, p3: Point) -> int {
    tdiv(
        norm_sq(p1) * (p2.y - p3.y) + norm_sq(p2) * (p3.y - p1.y) + norm_sq(p3) * (p1.y - p2.y),
        2 * orient2(p1, p2, p3),
    )
}

/// The y coordinate of the circumcentre, rounded toward zero.
pub open spec fn circumcenter_y(p1: Point, p2: Point, p3: Point) -> int {
    tdiv(
        norm_sq(p1) * (p3.x - p2.x) + norm_sq(p2) * (p1.x - p3.x) + norm_sq(p3) * (p2.x - p1.x),
        2 * orient2(p1, p2, p3),
    )
}

/// Truncating division on machine-width operands.
fn tdiv128(a: i128, b: i128) -> (r: i128)
    requires
        b != 0,
        -0x4000_0000_0000_0000_0000 <= a <= 0x4000_0000_0000_0000_0000,
        -0x4000_0000_0000_0000_0000 <= b <= 0x4000_0000_0000_0000_0000,
    ensures
        r as int == tdiv(a as int, b as int),
{
    proof {
        if (a as int) >= 0 && (b as int) > 0 {
            vstd::arithmetic::div_mod::lemma_div_nonincreasing(a as int, b as int);
            vstd::arithmetic::div_mod::lemma_div_pos_is_pos(a as int, b as int);
        } else if (a as int) < 0 && (b as int) < 0 {
            vstd::arithmetic::div_mod::lemma_div_nonincreasing(-(a as int), -(b as int));
            vstd::arithmetic::div_mod::lemma_div_pos_is_pos(-(a as int), -(b as int));
        } else if (a as int) < 0 {
            vstd::arithmetic::div_mod::lemma_div_nonincreasing(-(a as int), b as int);
            vstd::arithmetic::div_mod::lemma_div_pos_is_pos(-(a as int), b as int);
        } else {
            vstd::arithmetic::div_mod::lemma_div_nonincreasing(a as int, -(b as int));
            vstd::arithmetic::div_mod::lemma_div_pos_is_pos(a as int, -(b as int));
        }
    }
    if a >= 0 && b > 0 {
        a / b
    } else if a < 0 && b < 0 {
        (-a) / (-b)
    } else if a < 0 {
        -((-a) / b)
    } else {
        -(a / (-b))
    }
}

impl Math {
    /// The circle through three non-collinear points: centre and radius.
    /// Collinear points have no circumcircle; a centre outside the
    /// supported coordinate range is refused.
    pub fn circumcircle(p1: Point, p2: Point, p3: Point) -> (r: Result<(Point, i64), SplineError>)
        requires
            p1.bounded(CTRL_LIMIT as int),
            p2.bounded(CTRL_LIMIT as int),
            p3.bounded(CTRL_LIMIT as int),
        ensures
            orient2(p1, p2, p3) == 0 <==> r == Err::<(Point, i64), SplineError>(
                SplineError::DegenerateCurve,
            ),
            r is Err && orient2(p1, p2, p3) != 0 ==> r == Err::<(Point, i64), SplineError>(
                SplineError::OutOfRange,
            ) && (circumcenter_x(p1, p2, p3) > CENTER_LIMIT || circumcenter_x(p1, p2, p3)
                < -CENTER_LIMIT || circumcenter_y(p1, p2, p3) > CENTER_LIMIT || circumcenter_y(
                p1,
                p2,
                p3,
            ) < -CENTER_LIMIT),
            r is Ok ==> ({
                let (c, rad) = r->Ok_0;
                &&& c.x as int == circumcenter_x(p1, p2, p3)
                &&& c.y as int == circumcenter_y(p1, p2, p3)
                &&& c.bounded(CENTER_LIMIT as int)
                &&& rad as int == dist_spec(c, p1)
                &&& -CENTER_LIMIT <= circumcenter_x(p1, p2, p3) <= CENTER_LIMIT
                &&& -CENTER_LIMIT <= circumcenter_y(p1, p2, p3) <= CENTER_LIMIT
                &&& orient2(p1, p2, p3) != 0
            }),
    {
        let x1 = p1.x as i128;
        let y1 = p1.y as i128;
        let x2 = p2.x as i128;
        let y2 = p2.y as i128;
        let x3 = p3.x as i128;
        let y3 = p3.y as i128;
        proof {
            assert(-0x1000_0000_0000_0000 <= (x1 as int) * ((y2 as int) - (y3 as int))
                <= 0x1000_0000_0000_0000) by (nonlinear_arith)
                requires
                    -0x100_0000 <= x1 as int <= 0x100_0000,
                    -0x200_0000 <= (y2 as int) - (y3 as int) <= 0x200_0000,
            ;
            assert(-0x1000_0000_0000_0000 <= (x2 as int) * ((y3 as int) - (y1 as int))
                <= 0x1000_0000_0000_0000) by (nonlinear_arith)
                requires
                    -0x100_0000 <= x2 as int <= 0x100_0000,
                    -0x200_0000 <= (y3 as int) - (y1 as int) <= 0x200_0000,
            ;
            assert(-0x1000_0000_0000_0000 <= (x3 as int) * ((y1 as int) - (y2 as int))
                <= 0x1000_0000_0000_0000) by (nonlinear_arith)
                requires
                    -0x100_0000 <= x3 as int <= 0x100_0000,
                    -0x200_0000 <= (y1 as int) - (y2 as int) <= 0x200_0000,
            ;
        }
        let d = 2 * (x1 * (y2 - y3) + x2 * (y3 - y1) + x3 * (y1 - y2));
        if d == 0 {
            return Err(SplineError::DegenerateCurve);
        }
        proof {
            assert(0 <= (x1 as int) * (x1 as int) <= 0x1_0000_0000_0000) by (nonlinear_arith)
                requires
                    -0x100_0000 <= x1 as int <= 0x100_0000,
            ;
            assert(0 <= (y1 as int) * (y1 as int) <= 0x1_0000_0000_0000) by (nonlinear_arith)
                requires
                    -0x100_0000 <= y1 as int <= 0x100_0000,
            ;
            assert(0 <= (x2 as int) * (x2 as int) <= 0x1_0000_0000_0000) by (nonlinear_arith)
                requires
                    -0x100_0000 <= x2 as int <= 0x100_0000,
            ;
            assert(0 <= (y2 as int) * (y2 as int) <= 0x1_0000_0000_0000) by (nonlinear_arith)
                requires
                    -0x100_0000 <= y2 as int <= 0x100_0000,
            ;
            assert(0 <= (x3 as int) * (x3 as int) <= 0x1_0000_0000_0000) by (nonlinear_arith)
                requires
                    -0x100_0000 <= x3 as int <= 0x100_0000,
            ;
            assert(0 <= (y3 as int) * (y3 as int) <= 0x1_0000_0000_0000) by (nonlinear_arith)
                requires
                    -0x100_0000 <= y3 as int <= 0x100_0000,
            ;
        }
        let s1 = x1 * x1 + y1 * y1;
        let s2 = x2 * x2 + y2 * y2;
        let s3 = x3 * x3 + y3 * y3;
        proof {
            assert(-0x400_0000_0000_0000_0000 <= (s1 as int) * ((y2 as int) - (y3 as int))
                <= 0x400_0000_0000_0000_0000) by (nonlinear_arith)
                requires
                    0 <= s1 as int <= 0x2_0000_0000_0000,
                    -0x200_0000 <= (y2 as int) - (y3 as int) <= 0x200_0000,
            ;
            assert(-0x400_0000_0000_0000_0000 <= (s2 as int) * ((y3 as int) - (y1 as int))
                <= 0x400_0000_0000_0000_0000) by (nonlinear_arith)
                requires
                    0 <= s2 as int <= 0x2_0000_0000_0000,
                    -0x200_0000 <= (y3 as int) - (y1 as int) <= 0x200_0000,
            ;
            assert(-0x400_0000_0000_0000_0000 <= (s3 as int) * ((y1 as int) - (y2 as int))
                <= 0x400_0000_0000_0000_0000) by (nonlinear_arith)
                requires
                    0 <= s3 as int <= 0x2_0000_0000_0000,
                    -0x200_0000 <= (y1 as int) - (y2 as int) <= 0x200_0000,
            ;
            assert(-0x400_0000_0000_0000_0000 <= (s1 as int) * ((x3 as int) - (x2 as int))
                <= 0x400_0000_0000_0000_0000) by (nonlinear_arith)
                requires
                    0 <= s1 as int <= 0x2_0000_0000_0000,
                    -0x200_0000 <= (x3 as int) - (x2 as int) <= 0x200_0000,
            ;
            assert(-0x400_0000_0000_0000_0000 <= (s2 as int) * ((x1 as int) - (x3 as int))
                <= 0x400_0000_0000_0000_0000) by (nonlinear_arith)
                requires
                    0 <= s2 as int <= 0x2_0000_0000_0000,
                    -0x200_0000 <= (x1 as int) - (x3 as int) <= 0x200_0000,
            ;
            assert(-0x400_0000_0000_0000_0000 <= (s3 as int) * ((x2 as int) - (x1 as int))
                <= 0x400_0000_0000_0000_0000) by (nonlinear_arith)
                requires
                    0 <= s3 as int <= 0x2_0000_0000_0000,
                    -0x200_0000 <= (x2 as int) - (x1 as int) <= 0x200_0000,
            ;
        }
        let ux_num = s1 * (y2 - y3) + s2 * (y3 - y1) + s3 * (y1 - y2);
        let uy_num = s1 * (x3 - x2) + s2 * (x1 - x3) + s3 * (x2 - x1);
        let ux = tdiv128(ux_num, d);
        let uy = tdiv128(uy_num, d);
        if ux > CENTER_LIMIT as i128 || ux < -(CENTER_LIMIT as i128) || uy > CENTER_LIMIT as i128
            || uy < -(CENTER_LIMIT as i128) {
            return Err(SplineError::OutOfRange);
        }
        let center = Point { x: ux as i64, y: uy as i64 };
        let radius = dist(center, p1);
        Ok((center, radius))
    }
}

/// The fixed-point cosine approximation used for the step rotation:
/// a truncated series, exact integer arithmetic.
pub open spec fn cos_series(x: int) -> int {
    let t1 = (x * x) / (TRIG_ONE as int);
    let t2 = (t1 * t1) / (TRIG_ONE as int);
    let t3 = (t2 * t1) / (TRIG_ONE as int);
    TRIG_ONE - t1 / 2 + t2 / 24 - t3 / 720
}

/// The fixed-point sine approximation used for the step rotation.
pub open spec fn sin_series(x: int) -> int {
    let t1 = (x * x) / (TRIG_ONE as int);
    let t2 = (t1 * t1) / (TRIG_ONE as int);
    x - ((x * t1) / (TRIG_ONE as int)) / 6 + ((x * t2) / (TRIG_ONE as int)) / 120
}

/// Rotation of a vector by the angle whose cosine and sine are `cs` and
/// `sn` in trigonometric fixed point, in the y-flipped angle convention of
/// the sampler.
pub open spec fn rot_spec(v: Point, cs: int, sn: int) -> Point {
    Point {
        x: tdiv(v.x * cs + v.y * sn, TRIG_ONE as int) as i64,
        y: tdiv(v.y * cs - v.x * sn, TRIG_ONE as int) as i64,
    }
}

/// The radius vector after `k` step rotations.
pub open spec fn rot_vec(v0: Point, cs: int, sn: int, k: int) -> Point
    decreases k,
{
    if k <= 0 {
        v0
    } else {
        rot_spec(rot_vec(v0, cs, sn, k - 1), cs, sn)
    }
}

/// Sample `k` of the arc: the centre plus the rotated radius vector.
pub open spec fn arc_point(center: Point, v0: Point, cs: int, sn: int, k: int) -> Point {
    Point {
        x: (center.x + rot_vec(v0, cs, sn, k).x) as i64,
        y: (center.y + rot_vec(v0, cs, sn, k).y) as i64,
    }
}

/// All `count` samples of the arc.
pub open spec fn arc_points(center: Point, v0: Point, cs: int, sn: int, count: int) -> Seq<Point> {
    Seq::new(count as nat, |k: int| arc_point(center, v0, cs, sn, k))
}

/// The rotated radius vector stays in range for every sample.
pub open spec fn arc_ok(v0: Point, cs: int, sn: int, count: int) -> bool {
    forall|k: int| 0 <= k < count ==> rot_vec(v0, cs, sn, k).bounded(V_LIMIT as int)
}

/// The circumcentre as a point (meaningful when it is in range).
pub open spec fn perfect_center(p0: Point, p1: Point, p2: Point) -> Point {
    Point { x: circumcenter_x(p0, p1, p2) as i64, y: circumcenter_y(p0, p1, p2) as i64 }
}

/// Whether the circumcentre lies within the supported coordinate range.
pub open spec fn center_in_range(p0: Point, p1: Point, p2: Point) -> bool {
    &&& -CENTER_LIMIT <= circumcenter_x(p0, p1, p2) <= CENTER_LIMIT
    &&& -CENTER_LIMIT <= circumcenter_y(p0, p1, p2) <= CENTER_LIMIT
}

/// The arc radius: the distance from the circumcentre to the first point.
pub open spec fn perfect_radius(p0: Point, p1: Point, p2: Point) -> int {
    dist_spec(perfect_center(p0, p1, p2), p0)
}

/// The step angle in trigonometric fixed point: one pixel of arc length.
pub open spec fn step_angle(radius: int) -> int {
    (TRIG_ONE * SUBPIX) / radius
}

/// The signed step sine: the orientation of the control triangle picks
/// the traversal direction that passes through the middle point.
pub open spec fn step_sin(p0: Point, p1: Point, p2: Point, radius: int) -> int {
    if orient2(p0, p1, p2) < 0 {
        sin_series(step_angle(radius))
    } else {
        -sin_series(step_angle(radius))
    }
}

/// The start vector from the centre to the first control point.
pub open spec fn start_vec(p0: Point, c: Point) -> Point {
    Point { x: (p0.x - c.x) as i64, y: (p0.y - c.y) as i64 }
}

/// Roughly one sample per pixel of target length, and at least one.
pub open spec fn sample_count(len: int) -> int {
    let c = (len + SUBPIX - 1) / (SUBPIX as int);
    if c < 1 {
        1
    } else {
        c
    }
}

/// What the arc sampler produces: the samples, or the first of the checks
/// that fails on the way.
pub open spec fn perfect_outcome(p0: Point, p1: Point, p2: Point, len: int) -> Result<
    Seq<Point>,
    SplineError,
> {
    if orient2(p0, p1, p2) == 0 {
        Err(SplineError::DegenerateCurve)
    } else if !center_in_range(p0, p1, p2) {
        Err(SplineError::OutOfRange)
    } else {
        let c = perfect_center(p0, p1, p2);
        let rad = perfect_radius(p0, p1, p2);
        if rad < RADIUS_MIN {
            Err(SplineError::DegenerateCurve)
        } else if rad > RADIUS_LIMIT {
            Err(SplineError::OutOfRange)
        } else {
            let cs = cos_series(step_angle(rad));
            let sn = step_sin(p0, p1, p2, rad);
            let v0 = start_vec(p0, c);
            let n = sample_count(len);
            if arc_ok(v0, cs, sn, n) {
                Ok(arc_points(c, v0, cs, sn, n))
            } else {
                Err(SplineError::OutOfRange)
            }
        }
    }
}

/// The fixed-point cosine of a step angle of at most two radians.
fn cos_fixed(x: i64) -> (r: i64)
    requires
        0 <= x <= 0x10000,
    ensures
        r as int == cos_series(x as int),
        -4 * TRIG_ONE <= r <= 4 * TRIG_ONE,
{
    proof {
        assert(0 <= (x as int) * (x as int) <= 0x1_0000_0000) by (nonlinear_arith)
            requires
                0 <= x as int <= 0x10000,
        ;
    }
    let t1 = (x * x) / TRIG_ONE;
    proof {
        vstd::arithmetic::div_mod::lemma_div_pos_is_pos((x as int) * (x as int), TRIG_ONE as int);
        vstd::arithmetic::div_mod::lemma_div_is_ordered(
            (x as int) * (x as int),
            0x1_0000_0000,
            TRIG_ONE as int,
        );
        assert(0 <= (t1 as int) * (t1 as int) <= 0x4_0000_0000) by (nonlinear_arith)
            requires
                0 <= t1 as int <= 0x20000,
        ;
    }
    let t2 = (t1 * t1) / TRIG_ONE;
    proof {
        vstd::arithmetic::div_mod::lemma_div_pos_is_pos(
            (t1 as int) * (t1 as int),
            TRIG_ONE as int,
        );
        vstd::arithmetic::div_mod::lemma_div_is_ordered(
            (t1 as int) * (t1 as int),
            0x4_0000_0000,
            TRIG_ONE as int,
        );
        assert(0 <= (t2 as int) * (t1 as int) <= 0x10_0000_0000) by (nonlinear_arith)
            requires
                0 <= t1 as int <= 0x20000,
                0 <= t2 as int <= 0x80000,
        ;
    }
    let t3 = (t2 * t1) / TRIG_ONE;
    proof {
        vstd::arithmetic::div_mod::lemma_div_pos_is_pos(
            (t2 as int) * (t1 as int),
            TRIG_ONE as int,
        );
        vstd::arithmetic::div_mod::lemma_div_is_ordered(
            (t2 as int) * (t1 as int),
            0x10_0000_0000,
            TRIG_ONE as int,
        );
        vstd::arithmetic::div_mod::lemma_div_pos_is_pos(t1 as int, 2);
        vstd::arithmetic::div_mod::lemma_div_is_ordered(t1 as int, 0x20000, 2);
        vstd::arithmetic::div_mod::lemma_div_pos_is_pos(t2 as int, 24);
        vstd::arithmetic::div_mod::lemma_div_is_ordered(t2 as int, 0x80000, 24);
        vstd::arithmetic::div_mod::lemma_div_pos_is_pos(t3 as int, 720);
        vstd::arithmetic::div_mod::lemma_div_is_ordered(t3 as int, 0x20_0000, 720);
    }
    TRIG_ONE - t1 / 2 + t2 / 24 - t3 / 720
}

/// The fixed-point sine of a step angle of at most two radians.
fn sin_fixed(x: i64) -> (r: i64)
    requires
        0 <= x <= 0x10000,
    ensures
        r as int == sin_series(x as int),
        -4 * TRIG_ONE <= r <= 4 * TRIG_ONE,
{
    proof {
        assert(0 <= (x as int) * (x as int) <= 0x1_0000_0000) by (nonlinear_arith)
            requires
                0 <= x as int <= 0x10000,
        ;
    }
    let t1 = (x * x) / TRIG_ONE;
    proof {
        vstd::arithmetic::div_mod::lemma_div_pos_is_pos((x as int) * (x as int), TRIG_ONE as int);
        vstd::arithmetic::div_mod::lemma_div_is_ordered(
            (x as int) * (x as int),
            0x1_0000_0000,
            TRIG_ONE as int,
        );
        assert(0 <= (t1 as int) * (t1 as int) <= 0x4_0000_0000) by (nonlinear_arith)
            requires
                0 <= t1 as int <= 0x20000,
        ;
    }
    let t2 = (t1 * t1) / TRIG_ONE;
    proof {
        vstd::arithmetic::div_mod::lemma_div_pos_is_pos(
            (t1 as int) * (t1 as int),
            TRIG_ONE as int,
        );
        vstd::arithmetic::div_mod::lemma_div_is_ordered(
            (t1 as int) * (t1 as int),
            0x4_0000_0000,
            TRIG_ONE as int,
        );
        assert(0 <= (x as int) * (t1 as int) <= 0x2_0000_0000) by (nonlinear_arith)
            requires
                0 <= x as int <= 0x10000,
                0 <= t1 as int <= 0x20000,
        ;
        assert(0 <= (x as int) * (t2 as int) <= 0x8_0000_0000) by (nonlinear_arith)
            requires
                0 <= x as int <= 0x10000,
                0 <= t2 as int <= 0x80000,
        ;
    }
    let u1 = (x * t1) / TRIG_ONE;
    let u2 = (x * t2) / TRIG_ONE;
    proof {
        vstd::arithmetic::div_mod::lemma_div_pos_is_pos((x as int) * (t1 as int), TRIG_ONE as int);
        vstd::arithmetic::div_mod::lemma_div_is_ordered(
            (x as int) * (t1 as int),
            0x2_0000_0000,
            TRIG_ONE as int,
        );
        vstd::arithmetic::div_mod::lemma_div_pos_is_pos((x as int) * (t2 as int), TRIG_ONE as int);
        vstd::arithmetic::div_mod::lemma_div_is_ordered(
            (x as int) * (t2 as int),
            0x8_0000_0000,
            TRIG_ONE as int,
        );
        vstd::arithmetic::div_mod::lemma_div_pos_is_pos(u1 as int, 6);
        vstd::arithmetic::div_mod::lemma_div_is_ordered(u1 as int, 0x40000, 6);
        vstd::arithmetic::div_mod::lemma_div_pos_is_pos(u2 as int, 120);
        vstd::arithmetic::div_mod::lemma_div_is_ordered(u2 as int, 0x100000, 120);
    }
    x - u1 / 6 + u2 / 120
}

/// Division by the trigonometric unit, rounding toward zero.
fn scale_t(a: i64) -> (r: i64)
    requires
        -0x800_0000_0000 <= a <= 0x800_0000_0000,
    ensures
        r as int == tdiv(a as int, TRIG_ONE as int),
        -0x1000_0000 <= r <= 0x1000_0000,
{
    proof {
        lemma_tdiv_bound(a as int, TRIG_ONE as int, 0x1000_0000);
    }
    if a >= 0 {
        a / TRIG_ONE
    } else {
        -((-a) / TRIG_ONE)
    }
}

/// One rotation of the radius vector by the step angle.
fn rotate_step(v: Point, cs: i64, sn: i64) -> (r: Point)
    requires
        v.bounded(V_LIMIT as int),
        -4 * TRIG_ONE <= cs <= 4 * TRIG_ONE,
        -4 * TRIG_ONE <= sn <= 4 * TRIG_ONE,
    ensures
        r == rot_spec(v, cs as int, sn as int),
{
    proof {
        assert(-0x400_0000_0000 <= (v.x as int) * (cs as int) <= 0x400_0000_0000)
            by (nonlinear_arith)
            requires
                -0x200_0000 <= v.x as int <= 0x200_0000,
                -0x20000 <= cs as int <= 0x20000,
        ;
        assert(-0x400_0000_0000 <= (v.y as int) * (sn as int) <= 0x400_0000_0000)
            by (nonlinear_arith)
            requires
                -0x200_0000 <= v.y as int <= 0x200_0000,
                -0x20000 <= sn as int <= 0x20000,
        ;
        assert(-0x400_0000_0000 <= (v.y as int) * (cs as int) <= 0x400_0000_0000)
            by (nonlinear_arith)
            requires
                -0x200_0000 <= v.y as int <= 0x200_0000,
                -0x20000 <= cs as int <= 0x20000,
        ;
        assert(-0x400_0000_0000 <= (v.x as int) * (sn as int) <= 0x400_0000_0000)
            by (nonlinear_arith)
            requires
                -0x200_0000 <= v.x as int <= 0x200_0000,
                -0x20000 <= sn as int <= 0x20000,
        ;
    }
    let nx = scale_t(v.x * cs + v.y * sn);
    let ny = scale_t(v.y * cs - v.x * sn);
    Point { x: nx, y: ny }
}

/// Twice the signed triangle area, the collinearity and orientation test.
fn orient_exec(p1: Point, p2: Point, p3: Point) -> (r: i64)
    requires
        p1.bounded(CTRL_LIMIT as int),
        p2.bounded(CTRL_LIMIT as int),
        p3.bounded(CTRL_LIMIT as int),
    ensures
        r as int == orient2(p1, p2, p3),
{
    proof {
        assert(-0x2_0000_0000_0000 <= (p1.x as int) * ((p2.y as int) - (p3.y as int))
            <= 0x2_0000_0000_0000) by (nonlinear_arith)
            requires
                -0x100_0000 <= p1.x as int <= 0x100_0000,
                -0x200_0000 <= (p2.y as int) - (p3.y as int) <= 0x200_0000,
        ;
        assert(-0x2_0000_0000_0000 <= (p2.x as int) * ((p3.y as int) - (p1.y as int))
            <= 0x2_0000_0000_0000) by (nonlinear_arith)
            requires
                -0x100_0000 <= p2.x as int <= 0x100_0000,
                -0x200_0000 <= (p3.y as int) - (p1.y as int) <= 0x200_0000,
        ;
        assert(-0x2_0000_0000_0000 <= (p3.x as int) * ((p1.y as int) - (p2.y as int))
            <= 0x2_0000_0000_0000) by (nonlinear_arith)
            requires
                -0x100_0000 <= p3.x as int <= 0x100_0000,
                -0x200_0000 <= (p1.y as int) - (p2.y as int) <= 0x200_0000,
        ;
    }
    p1.x * (p2.y - p3.y) + p2.x * (p3.y - p1.y) + p3.x * (p1.y - p2.y)
}

/// Samples a circular arc through the three control points, one sample
/// per pixel of target length, starting exactly on the first point.
pub(crate) fn perfect_points(p0: Point, p1: Point, p2: Point, pixel_length: i64) -> (r: Result<
    Vec<Point>,
    SplineError,
>)
    requires
        p0.bounded(CTRL_LIMIT as int),
        p1.bounded(CTRL_LIMIT as int),
        p2.bounded(CTRL_LIMIT as int),
        0 <= pixel_length <= LEN_LIMIT,
    ensures
        (r is Ok) == (perfect_outcome(p0, p1, p2, pixel_length as int) is Ok),
        r is Ok ==> r->Ok_0@ == perfect_outcome(p0, p1, p2, pixel_length as int)->Ok_0,
        r is Err ==> r->Err_0 == perfect_outcome(p0, p1, p2, pixel_length as int)->Err_0,
        r is Ok ==> ({
            &&& r->Ok_0@.len() >= 1
            &&& forall|i: int|
                0 <= i < r->Ok_0@.len() ==> (#[trigger] r->Ok_0@[i]).bounded(COORD_LIMIT as int)
        }),
{
    let cr = Math::circumcircle(p0, p1, p2);
    let center: Point;
    let radius: i64;
    match cr {
        Ok(pair) => {
            center = pair.0;
            radius = pair.1;
        },
        Err(e) => {
            return Err(e);
        },
    }
    if radius < RADIUS_MIN {
        return Err(SplineError::DegenerateCurve);
    }
    if radius > RADIUS_LIMIT {
        return Err(SplineError::OutOfRange);
    }
    let phi = (TRIG_ONE * SUBPIX) / radius;
    proof {
        vstd::arithmetic::div_mod::lemma_div_pos_is_pos(0x80_0000, radius as int);
        vstd::arithmetic::div_mod::lemma_div_is_ordered_by_denominator(
            0x80_0000,
            RADIUS_MIN as int,
            radius as int,
        );
    }
    let cs = cos_fixed(phi);
    let sn_abs = sin_fixed(phi);
    let o = orient_exec(p0, p1, p2);
    let sn = if o < 0 {
        sn_abs
    } else {
        -sn_abs
    };
    let c0 = if pixel_length <= 0 {
        1
    } else {
        (pixel_length + (SUBPIX - 1)) / SUBPIX
    };
    let count_i = if c0 < 1 {
        1
    } else {
        c0
    };
    proof {
        vstd::arithmetic::div_mod::lemma_div_pos_is_pos(
            pixel_length as int + (SUBPIX as int - 1),
            SUBPIX as int,
        );
        vstd::arithmetic::div_mod::lemma_div_is_ordered(
            pixel_length as int + (SUBPIX as int - 1),
            0x100_0100,
            SUBPIX as int,
        );
        assert(count_i as int == sample_count(pixel_length as int));
    }
    let count = count_i as usize;
    let ghost v0 = start_vec(p0, center);
    proof {
        lemma_dist_dominates_axes(center, p0);
    }
    let mut pts: Vec<Point> = Vec::new();
    let mut v = Point { x: p0.x - center.x, y: p0.y - center.y };
    let mut k: usize = 0;
    while k < count
        invariant
            k <= count,
            1 <= count <= 0x10100,
            center.bounded(CENTER_LIMIT as int),
            orient2(p0, p1, p2) != 0,
            center_in_range(p0, p1, p2),
            center == perfect_center(p0, p1, p2),
            RADIUS_MIN <= radius <= RADIUS_LIMIT,
            radius as int == perfect_radius(p0, p1, p2),
            cs as int == cos_series(step_angle(radius as int)),
            sn as int == step_sin(p0, p1, p2, radius as int),
            v0 == start_vec(p0, center),
            count as int == sample_count(pixel_length as int),
            -4 * TRIG_ONE <= cs <= 4 * TRIG_ONE,
            -4 * TRIG_ONE <= sn <= 4 * TRIG_ONE,
            pts@.len() == k,
            v == rot_vec(v0, cs as int, sn as int, k as int),
            forall|j: int| 0 <= j < k ==> rot_vec(v0, cs as int, sn as int, j).bounded(
                V_LIMIT as int,
            ),
            forall|j: int|
                0 <= j < k ==> #[trigger] pts@[j] == arc_point(
                    center,
                    v0,
                    cs as int,
                    sn as int,
                    j,
                ) && pts@[j].bounded(COORD_LIMIT as int),
        decreases count - k,
    {
        if v.x > V_LIMIT || v.x < -V_LIMIT || v.y > V_LIMIT || v.y < -V_LIMIT {
            proof {
                assert(!rot_vec(v0, cs as int, sn as int, k as int).bounded(V_LIMIT as int));
                assert(!arc_ok(v0, cs as int, sn as int, count as int));
            }
            return Err(SplineError::OutOfRange);
        }
        pts.push(Point { x: center.x + v.x, y: center.y + v.y });
        v = rotate_step(v, cs, sn);
        k += 1;
    }
    proof {
        assert(arc_ok(v0, cs as int, sn as int, count as int));
        assert(pts@ =~= arc_points(center, v0, cs as int, sn as int, count as int));
    }
    Ok(pts)
}

} // verus!
