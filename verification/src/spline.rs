//! Splines: densely sampled, arc-length parameterized polylines built from
//! a slider's control points, and the query that returns the position after
//! travelling a given distance along one.

use vstd::prelude::*;

use crate::arc::{perfect_outcome, perfect_points};
use crate::bezier::{calculate_bezier, calculate_bezier_spec};
use crate::geom::{
    dist, dist_spec, dist_sq_spec, lemma_dist_dominates_axes, lemma_dist_zero, lemma_sqrt_floor,
    sqrt_floor, tdiv, Point, COORD_LIMIT, SUBPIX,
};

verus! {

/// Bound on the magnitude of a control-point coordinate (fixed-point).
pub const CTRL_LIMIT: i64 = 0x100_0000;

/// Bound on a target pixel length (fixed-point units).
pub const LEN_LIMIT: i64 = 0x100_0000;

/// Bound on a cumulative arc length; a curve longer than this is refused.
pub const LENGTH_CAP: i64 = 0x4000_0000_0000;

/// The curve shapes a slider can be authored with.
#[derive(Clone, Copy, Debug, PartialEq, Eq, Structural)]
pub enum CurveKind {
    Linear,
    Perfect,
    Bezier,
}

/// Why a spline could not be built.
#[derive(Clone, Copy, Debug, PartialEq, Eq, Structural)]
pub enum SplineError {
    /// The control points leave the curve undefined: a zero-length linear
    /// direction, a collinear circular-arc triple, or an arc of less than
    /// half a pixel radius.
    DegenerateCurve,
    /// An intermediate value left the coordinate or length range the
    /// fixed-point arithmetic supports.
    OutOfRange,
}

/// The cumulative arc length at sample `i`: the sum of the distances
/// between consecutive samples up to it.
pub open spec fn cum_at(pts: Seq<Point>, i: int) -> int
    decreases i,
{
    if i <= 0 {
        0
    } else {
        cum_at(pts, i - 1) + dist_spec(pts[i - 1], pts[i])
    }
}

/// Distances are nonnegative.
pub proof fn lemma_dist_nonneg(a: Point, b: Point)
    ensures
        0 <= dist_spec(a, b),
{
    let dx: int = b.x - a.x;
    let dy: int = b.y - a.y;
    assert(dx * dx >= 0) by (nonlinear_arith);
    assert(dy * dy >= 0) by (nonlinear_arith);
    lemma_sqrt_floor(dist_sq_spec(a, b));
}

/// Distances between in-range points stay within four times the
/// coordinate limit.
pub proof fn lemma_dist_bound(a: Point, b: Point)
    requires
        a.bounded(COORD_LIMIT as int),
        b.bounded(COORD_LIMIT as int),
    ensures
        0 <= dist_spec(a, b) <= 4 * COORD_LIMIT,
{
    let dx: int = b.x - a.x;
    let dy: int = b.y - a.y;
    let n = dist_sq_spec(a, b);
    assert(0 <= dx * dx <= 0x1000_0000 * 0x1000_0000) by (nonlinear_arith)
        requires
            -0x1000_0000 <= dx <= 0x1000_0000,
    ;
    assert(0 <= dy * dy <= 0x1000_0000 * 0x1000_0000) by (nonlinear_arith)
        requires
            -0x1000_0000 <= dy <= 0x1000_0000,
    ;
    assert(n == dx * dx + dy * dy);
    assert(n <= 0x200_0000_0000_0000);
    lemma_sqrt_floor(n);
    let q = sqrt_floor(n);
    if q > 0x2000_0000 {
        assert(q * q > 0x2000_0000 * 0x2000_0000) by (nonlinear_arith)
            requires
                q > 0x2000_0000,
        ;
        assert(false);
    }
}

/// The arc-length table is monotone.
pub proof fn lemma_cum_monotone(pts: Seq<Point>, i: int, j: int)
    requires
        0 <= i <= j,
    ensures
        cum_at(pts, i) <= cum_at(pts, j),
    decreases j - i,
{
    if i < j {
        lemma_cum_monotone(pts, i, j - 1);
        lemma_dist_nonneg(pts[j - 1], pts[j]);
    }
}

/// Samples sharing one cumulative length are one and the same point.
pub proof fn lemma_equal_cum_equal_points(pts: Seq<Point>, i: int, j: int)
    requires
        0 <= i <= j < pts.len(),
        cum_at(pts, i) == cum_at(pts, j),
    ensures
        pts[i] == pts[j],
    decreases j - i,
{
    if i < j {
        lemma_cum_monotone(pts, i, j - 1);
        lemma_dist_nonneg(pts[j - 1], pts[j]);
        lemma_dist_zero(pts[j - 1], pts[j]);
        lemma_equal_cum_equal_points(pts, i, j - 1);
    }
}

/// A slider's spline: the flattened polyline and, for each sample, the
/// distance travelled from the start to it.
#[derive(Clone, Debug)]
pub struct Spline {
    pub spline_points: Vec<Point>,
    pub cumulative_lengths: Vec<i64>,
}

impl Spline {
    /// Well-formedness: at least one sample, a parallel length table whose
    /// entries are exactly the summed consecutive distances, and every
    /// sample within the supported coordinate range.
    pub open spec fn wf(self) -> bool {
        &&& self.spline_points@.len() >= 1
        &&& self.cumulative_lengths@.len() == self.spline_points@.len()
        &&& forall|i: int|
            0 <= i < self.cumulative_lengths@.len() ==> (#[trigger] self.cumulative_lengths@[i])
                as int == cum_at(self.spline_points@, i)
        &&& forall|i: int|
            0 <= i < self.spline_points@.len() ==> (#[trigger] self.spline_points@[i]).bounded(
                COORD_LIMIT as int,
            )
    }
}

/// Builds the arc-length table of a sample sequence, refusing curves whose
/// total length leaves the supported range.
fn build_lengths(points: &Vec<Point>) -> (r: Result<Vec<i64>, SplineError>)
    requires
        points@.len() >= 1,
        forall|i: int|
            0 <= i < points@.len() ==> (#[trigger] points@[i]).bounded(COORD_LIMIT as int),
    ensures
        r is Ok ==> ({
            &&& r->Ok_0@.len() == points@.len()
            &&& forall|i: int|
                0 <= i < points@.len() ==> (#[trigger] r->Ok_0@[i]) as int == cum_at(points@, i)
            &&& cum_at(points@, points@.len() - 1) <= LENGTH_CAP
        }),
        r is Err ==> r == Err::<Vec<i64>, SplineError>(SplineError::OutOfRange) && cum_at(
            points@,
            points@.len() - 1,
        ) > LENGTH_CAP,
{
    let n = points.len();
    let mut lengths: Vec<i64> = Vec::new();
    lengths.push(0);
    let mut curr: i64 = 0;
    let mut i: usize = 1;
    while i < n
        invariant
            1 <= i <= n,
            n == points@.len(),
            forall|q: int|
                0 <= q < points@.len() ==> (#[trigger] points@[q]).bounded(COORD_LIMIT as int),
            lengths@.len() == i,
            curr as int == cum_at(points@, i as int - 1),
            0 <= curr <= LENGTH_CAP,
            forall|q: int| 0 <= q < i ==> (#[trigger] lengths@[q]) as int == cum_at(points@, q),
        decreases n - i,
    {
        let d = dist(points[i - 1], points[i]);
        let next = curr + d;
        if next > LENGTH_CAP {
            proof {
                lemma_cum_monotone(points@, i as int, n as int - 1);
            }
            return Err(SplineError::OutOfRange);
        }
        curr = next;
        lengths.push(curr);
        i += 1;
    }
    Ok(lengths)
}

/// The end point of a linear slider: the start carried `len` units along
/// the unit direction from `p0` to `p1`.
pub open spec fn linear_end(p0: Point, p1: Point, len: int) -> Point {
    let d = dist_spec(p0, p1);
    Point {
        x: (p0.x + tdiv((p1.x - p0.x) * len, d)) as i64,
        y: (p0.y + tdiv((p1.y - p0.y) * len, d)) as i64,
    }
}

/// `tdiv(diff * num, den)` for a possibly negative `diff`.
fn mul_div_pos(diff: i64, num: i64, den: i64) -> (r: i64)
    requires
        -den <= diff <= den,
        0 <= num <= LEN_LIMIT,
        0 < den <= 4 * COORD_LIMIT,
    ensures
        r as int == tdiv(diff as int * num as int, den as int),
        -num <= r <= num,
{
    if diff >= 0 {
        proof {
            assert(0 <= (diff as int) * (num as int) <= (den as int) * (num as int))
                by (nonlinear_arith)
                requires
                    0 <= diff as int,
                    diff as int <= den as int,
                    0 <= num as int,
            ;
            assert((den as int) * (num as int) <= 0x2000_0000 * 0x100_0000) by (nonlinear_arith)
                requires
                    0 < den as int <= 0x2000_0000,
                    0 <= num as int <= 0x100_0000,
            ;
            vstd::arithmetic::div_mod::lemma_div_is_ordered(
                (diff as int) * (num as int),
                (den as int) * (num as int),
                den as int,
            );
            vstd::arithmetic::div_mod::lemma_div_multiples_vanish(num as int, den as int);
            vstd::arithmetic::div_mod::lemma_div_pos_is_pos(
                (diff as int) * (num as int),
                den as int,
            );
        }
        (diff * num) / den
    } else {
        let nd = -diff;
        proof {
            assert((nd as int) * (num as int) == -((diff as int) * (num as int)))
                by (nonlinear_arith)
                requires
                    nd as int == -(diff as int),
            ;
            assert(0 <= (nd as int) * (num as int) <= (den as int) * (num as int))
                by (nonlinear_arith)
                requires
                    0 <= nd as int,
                    nd as int <= den as int,
                    0 <= num as int,
            ;
            assert((den as int) * (num as int) <= 0x2000_0000 * 0x100_0000) by (nonlinear_arith)
                requires
                    0 < den as int <= 0x2000_0000,
                    0 <= num as int <= 0x100_0000,
            ;
            vstd::arithmetic::div_mod::lemma_div_is_ordered(
                (nd as int) * (num as int),
                (den as int) * (num as int),
                den as int,
            );
            vstd::arithmetic::div_mod::lemma_div_multiples_vanish(num as int, den as int);
            vstd::arithmetic::div_mod::lemma_div_pos_is_pos((nd as int) * (num as int), den as int);
        }
        -((nd * num) / den)
    }
}

/// The two samples of a linear slider: the start, and the start moved
/// `pixel_length` along the direction towards the second control point.
fn linear_points(p0: Point, p1: Point, pixel_length: i64) -> (r: Result<
    Vec<Point>,
    SplineError,
>)
    requires
        p0.bounded(CTRL_LIMIT as int),
        p1.bounded(CTRL_LIMIT as int),
        0 <= pixel_length <= LEN_LIMIT,
    ensures
        r is Err <==> p0 == p1,
        r is Err ==> r == Err::<Vec<Point>, SplineError>(SplineError::DegenerateCurve),
        r is Ok ==> r->Ok_0@ =~= seq![p0, linear_end(p0, p1, pixel_length as int)],
        r is Ok ==> forall|i: int|
            0 <= i < r->Ok_0@.len() ==> (#[trigger] r->Ok_0@[i]).bounded(COORD_LIMIT as int),
{
    let d = dist(p0, p1);
    proof {
        lemma_dist_zero(p0, p1);
        lemma_dist_dominates_axes(p0, p1);
    }
    if d == 0 {
        return Err(SplineError::DegenerateCurve);
    }
    let ex = p0.x + mul_div_pos(p1.x - p0.x, pixel_length, d);
    let ey = p0.y + mul_div_pos(p1.y - p0.y, pixel_length, d);
    let mut pts: Vec<Point> = Vec::new();
    pts.push(p0);
    pts.push(Point { x: ex, y: ey });
    Ok(pts)
}

/// Linear interpolation of one coordinate: `a` plus the proportional part
/// of the way towards `b`.
pub open spec fn lerp_val(a: int, b: int, num: int, den: int) -> int {
    a + tdiv((b - a) * num, den)
}

/// Linear interpolation of a point.
pub open spec fn lerp_point(p1: Point, p2: Point, num: int, den: int) -> Point {
    Point {
        x: lerp_val(p1.x as int, p2.x as int, num, den) as i64,
        y: lerp_val(p1.y as int, p2.y as int, num, den) as i64,
    }
}

/// The greatest index `i <= m` whose cumulative length is at most
/// `length`, or 0.
pub open spec fn bracket(cum: Seq<i64>, length: int, m: int) -> int
    decreases m,
{
    if m <= 0 {
        0
    } else if cum[m] <= length {
        m
    } else {
        bracket(cum, length, m - 1)
    }
}

/// What `position_at_length` returns: the exact sample when the length
/// falls on one, the first sample below the start of the table, the last
/// sample at or beyond its end, and otherwise the proportional point of
/// the bracketing segment.
pub open spec fn query_model(s: Spline, length: int) -> Point {
    let pts = s.spline_points@;
    let cum = s.cumulative_lengths@;
    let n = pts.len() - 1;
    if length < 0 {
        pts[0]
    } else if length >= cum[n] {
        pts[n]
    } else {
        let i = bracket(cum, length, n - 1);
        if cum[i] == length {
            pts[i]
        } else {
            lerp_point(pts[i], pts[i + 1], length - cum[i], cum[i + 1] - cum[i])
        }
    }
}

/// An index that sits under `length` while its successor sits above is the
/// bracket index.
proof fn lemma_bracket_is(cum: Seq<i64>, length: int, m: int, r: int)
    requires
        0 <= r <= m < cum.len(),
        forall|i: int, j: int| 0 <= i <= j < cum.len() ==> cum[i] as int <= cum[j] as int,
        cum[r] <= length,
        r < m ==> cum[r + 1] > length,
    ensures
        r == bracket(cum, length, m),
    decreases m,
{
    if m > 0 {
        if cum[m] <= length {
            if r < m {
                assert(cum[r + 1] as int <= cum[m] as int);
            }
        } else {
            lemma_bracket_is(cum, length, m - 1, r);
        }
    }
}

/// The length table of a well-formed spline is sorted.
proof fn lemma_spline_cum_sorted(s: Spline)
    requires
        s.wf(),
    ensures
        forall|i: int, j: int|
            0 <= i <= j < s.cumulative_lengths@.len() ==> s.cumulative_lengths@[i] as int
                <= s.cumulative_lengths@[j] as int,
{
    assert forall|i: int, j: int|
        0 <= i <= j < s.cumulative_lengths@.len() implies s.cumulative_lengths@[i] as int
        <= s.cumulative_lengths@[j] as int by {
        lemma_cum_monotone(s.spline_points@, i, j);
    }
}

/// One coordinate of the proportional point between `a` and `b`.
fn lerp_exec(a: i64, b: i64, num: i64, den: i64) -> (r: i64)
    requires
        -COORD_LIMIT <= a <= COORD_LIMIT,
        -COORD_LIMIT <= b <= COORD_LIMIT,
        0 <= num < den,
        den <= 4 * COORD_LIMIT,
    ensures
        r as int == lerp_val(a as int, b as int, num as int, den as int),
        -COORD_LIMIT <= r <= COORD_LIMIT,
{
    let diff = b - a;
    if diff >= 0 {
        proof {
            assert(0 <= (diff as int) * (num as int) <= (diff as int) * (den as int))
                by (nonlinear_arith)
                requires
                    0 <= diff as int,
                    0 <= num as int,
                    (num as int) <= (den as int),
            ;
            assert((diff as int) * (den as int) <= 0x1000_0000 * 0x2000_0000) by (nonlinear_arith)
                requires
                    0 <= diff as int,
                    diff as int <= 0x1000_0000,
                    0 <= den as int,
                    den as int <= 0x2000_0000,
            ;
            assert((diff as int) * (den as int) == (den as int) * (diff as int))
                by (nonlinear_arith);
            vstd::arithmetic::div_mod::lemma_div_is_ordered(
                (diff as int) * (num as int),
                (diff as int) * (den as int),
                den as int,
            );
            vstd::arithmetic::div_mod::lemma_div_multiples_vanish(diff as int, den as int);
            vstd::arithmetic::div_mod::lemma_div_pos_is_pos(
                (diff as int) * (num as int),
                den as int,
            );
        }
        a + (diff * num) / den
    } else {
        let nd = -diff;
        proof {
            assert((nd as int) * (num as int) == -((diff as int) * (num as int)))
                by (nonlinear_arith)
                requires
                    nd as int == -(diff as int),
            ;
            assert(0 <= (nd as int) * (num as int) <= (nd as int) * (den as int))
                by (nonlinear_arith)
                requires
                    0 <= nd as int,
                    0 <= num as int,
                    (num as int) <= (den as int),
            ;
            assert((nd as int) * (den as int) <= 0x1000_0000 * 0x2000_0000) by (nonlinear_arith)
                requires
                    0 <= nd as int,
                    nd as int <= 0x1000_0000,
                    0 <= den as int,
                    den as int <= 0x2000_0000,
            ;
            assert((nd as int) * (den as int) == (den as int) * (nd as int)) by (nonlinear_arith);
            vstd::arithmetic::div_mod::lemma_div_is_ordered(
                (nd as int) * (num as int),
                (nd as int) * (den as int),
                den as int,
            );
            vstd::arithmetic::div_mod::lemma_div_multiples_vanish(nd as int, den as int);
            vstd::arithmetic::div_mod::lemma_div_pos_is_pos((nd as int) * (num as int), den as int);
        }
        a - (nd * num) / den
    }
}

impl Spline {
    /// The position after travelling `length` along the spline: the exact
    /// sample when the length matches a table entry, the last sample at or
    /// beyond the end of the table, the first sample below its start, and
    /// otherwise the linear interpolation across the bracketing segment.
    pub fn position_at_length(&self, length: i64) -> (p: Point)
        requires
            self.wf(),
        ensures
            p == query_model(*self, length as int),
            p.bounded(COORD_LIMIT as int),
    {
        if length < 0 {
            return self.spline_points[0];
        }
        let n = self.spline_points.len() - 1;
        let last_len = self.cumulative_lengths[n];
        if length >= last_len {
            return self.spline_points[n];
        }
        proof {
            assert(self.cumulative_lengths@[0] as int == cum_at(self.spline_points@, 0));
            assert(n >= 1);
        }
        let mut lo: usize = 0;
        let mut hi: usize = n - 1;
        while lo < hi
            invariant
                self.wf(),
                1 <= n,
                n == self.spline_points@.len() - 1,
                lo <= hi <= n - 1,
                self.cumulative_lengths@[lo as int] <= length,
                self.cumulative_lengths@[hi as int + 1] > length,
            decreases hi - lo,
        {
            let mid = lo + (hi - lo + 1) / 2;
            if self.cumulative_lengths[mid] <= length {
                lo = mid;
            } else {
                hi = mid - 1;
            }
        }
        proof {
            lemma_spline_cum_sorted(*self);
            lemma_bracket_is(self.cumulative_lengths@, length as int, n as int - 1, lo as int);
        }
        let len1 = self.cumulative_lengths[lo];
        if len1 == length {
            return self.spline_points[lo];
        }
        let len2 = self.cumulative_lengths[lo + 1];
        let p1 = self.spline_points[lo];
        let p2 = self.spline_points[lo + 1];
        proof {
            assert(self.cumulative_lengths@[lo as int + 1] as int == cum_at(
                self.spline_points@,
                lo as int + 1,
            ));
            assert(self.cumulative_lengths@[lo as int] as int == cum_at(
                self.spline_points@,
                lo as int,
            ));
            lemma_dist_bound(p1, p2);
        }
        let num = length - len1;
        let den = len2 - len1;
        let x = lerp_exec(p1.x, p2.x, num, den);
        let y = lerp_exec(p1.y, p2.y, num, den);
        Point { x, y }
    }
}

/// Any cumulative length is at most the number of steps times the largest
/// step.
proof fn lemma_cum_bound(pts: Seq<Point>, i: int)
    requires
        0 <= i < pts.len(),
        forall|q: int| 0 <= q < pts.len() ==> (#[trigger] pts[q]).bounded(COORD_LIMIT as int),
    ensures
        cum_at(pts, i) <= i * (4 * COORD_LIMIT as int),
    decreases i,
{
    if i > 0 {
        lemma_cum_bound(pts, i - 1);
        lemma_dist_bound(pts[i - 1], pts[i]);
    }
}

/// Copies the control points of one segment.
fn copy_range(pts: &Vec<Point>, lo: usize, hi: usize) -> (r: Vec<Point>)
    requires
        lo < hi <= pts@.len(),
    ensures
        r@ =~= pts@.subrange(lo as int, hi as int),
{
    let mut r: Vec<Point> = Vec::new();
    let mut t = lo;
    while t < hi
        invariant
            lo <= t <= hi <= pts@.len(),
            r@.len() == t - lo,
            forall|q: int| 0 <= q < r@.len() ==> #[trigger] r@[q] == pts@[lo + q],
        decreases hi - t,
    {
        r.push(pts[t]);
        t += 1;
    }
    r
}

/// What flattening the whole control-point sequence produces, scanning
/// for red anchors from position `i` with the current segment starting at
/// `idx`: every segment between consecutive duplicated points is
/// flattened independently and the outputs are concatenated in order.
pub open spec fn bezier_segments(cp: Seq<Point>, idx: int, i: int) -> Option<Seq<Point>>
    decreases cp.len() - i,
{
    if i >= cp.len() {
        calculate_bezier_spec(cp.subrange(idx, cp.len() as int))
    } else if cp[i] == cp[i - 1] {
        let a = calculate_bezier_spec(cp.subrange(idx, i));
        let b = bezier_segments(cp, i, i + 1);
        if a is Some && b is Some {
            Some(a->Some_0 + b->Some_0)
        } else {
            None
        }
    } else {
        bezier_segments(cp, idx, i + 1)
    }
}

/// The polyline of a multi-segment Bézier: the control points split at
/// every red anchor, each segment flattened, the results concatenated,
/// with the final control point appended verbatim by the last segment;
/// or nothing when a segment exhausts the subdivision budget.
pub open spec fn bezier_build(cp: Seq<Point>) -> Option<Seq<Point>> {
    bezier_segments(cp, 0, 1)
}

/// Flattens a multi-segment Bézier: the control points are split at red
/// anchors (consecutive duplicated points), each segment is flattened
/// independently, the outputs are concatenated, and the final control
/// point is appended verbatim by the last segment.
fn bezier_points(control_points: &Vec<Point>) -> (r: Result<Vec<Point>, SplineError>)
    requires
        2 <= control_points@.len() <= 0x1000_0000,
        forall|i: int|
            0 <= i < control_points@.len() ==> (#[trigger] control_points@[i]).bounded(
                CTRL_LIMIT as int,
            ),
    ensures
        (r is Ok) == (bezier_build(control_points@) is Some),
        r is Err ==> r->Err_0 == SplineError::OutOfRange,
        r is Ok ==> ({
            let pts = r->Ok_0@;
            &&& pts == bezier_build(control_points@)->Some_0
            &&& pts.len() >= 2
            &&& pts[0] == control_points@[0]
            &&& pts[pts.len() - 1] == control_points@[control_points@.len() - 1]
            &&& forall|q: int| 0 <= q < pts.len() ==> (#[trigger] pts[q]).bounded(CTRL_LIMIT as int)
        }),
{
    let n_pts = control_points.len();
    let ghost target = bezier_build(control_points@);
    let mut whole: Vec<Point> = Vec::new();
    let mut idx: usize = 0;
    let mut i: usize = 1;
    while i < n_pts
        invariant
            1 <= i <= n_pts,
            idx <= i - 1,
            n_pts == control_points@.len(),
            n_pts <= 0x1000_0000,
            forall|q: int|
                0 <= q < control_points@.len() ==> (#[trigger] control_points@[q]).bounded(
                    CTRL_LIMIT as int,
                ),
            whole@.len() == 0 ==> idx == 0,
            whole@.len() > 0 ==> whole@[0] == control_points@[0],
            forall|q: int| 0 <= q < whole@.len() ==> (#[trigger] whole@[q]).bounded(
                CTRL_LIMIT as int,
            ),
            target == bezier_build(control_points@),
            (target is Some) == (bezier_segments(control_points@, idx as int, i as int) is Some),
            bezier_segments(control_points@, idx as int, i as int) is Some ==> target->Some_0
                == whole@ + bezier_segments(control_points@, idx as int, i as int)->Some_0,
        decreases n_pts - i,
    {
        if control_points[i] == control_points[i - 1] {
            let seg = copy_range(control_points, idx, i);
            let mut part = match calculate_bezier(&seg) {
                Ok(p) => p,
                Err(e) => {
                    return Err(e);
                },
            };
            proof {
                let a = calculate_bezier_spec(control_points@.subrange(idx as int, i as int));
                let b = bezier_segments(control_points@, i as int, i as int + 1);
                if b is Some {
                    assert((whole@ + (a->Some_0 + b->Some_0)) =~= ((whole@ + a->Some_0)
                        + b->Some_0));
                }
            }
            whole.append(&mut part);
            idx = i;
        }
        i += 1;
    }
    let seg = copy_range(control_points, idx, n_pts);
    let mut part = match calculate_bezier(&seg) {
        Ok(p) => p,
        Err(e) => {
            return Err(e);
        },
    };
    whole.append(&mut part);
    Ok(whole)
}

/// The curve shape actually built: two control points always make a
/// linear curve, whatever shape was requested.
pub open spec fn effective_kind(kind: CurveKind, n: int) -> CurveKind {
    if n == 2 {
        CurveKind::Linear
    } else {
        kind
    }
}

/// What building a spline from this input returns.
///
/// A linear curve is exactly `[p0, p0 + unit(p1 - p0) * pixel_length]`
/// and fails exactly on a zero direction; a circular arc returns the
/// sampler's outcome; a Bézier returns exactly the red-anchor split,
/// per-segment flattening and in-order concatenation of `bezier_build`,
/// refused only when a segment exhausts the subdivision budget or the
/// curve is longer than the length cap.
pub open spec fn build_matches(
    kind: CurveKind,
    cp: Seq<Point>,
    len: int,
    r: Result<Spline, SplineError>,
) -> bool {
    &&& (r is Ok ==> r->Ok_0.wf())
    &&& (effective_kind(kind, cp.len() as int) is Linear ==> {
        &&& (r is Err <==> cp[0] == cp[1])
        &&& (r is Err ==> r->Err_0 == SplineError::DegenerateCurve)
        &&& (r is Ok ==> r->Ok_0.spline_points@ == seq![cp[0], linear_end(cp[0], cp[1], len)])
    })
    &&& (effective_kind(kind, cp.len() as int) is Perfect ==> {
        let oc = perfect_outcome(cp[0], cp[1], cp[2], len);
        &&& ((r is Ok) == (oc is Ok))
        &&& (r is Ok ==> r->Ok_0.spline_points@ == oc->Ok_0)
        &&& (r is Err ==> r->Err_0 == oc->Err_0)
    })
    &&& (effective_kind(kind, cp.len() as int) is Bezier ==> {
        let bb = bezier_build(cp);
        &&& (bb is None ==> r == Err::<Spline, SplineError>(SplineError::OutOfRange))
        &&& (bb is Some ==> {
            let pts = bb->Some_0;
            &&& ((r is Ok) <==> cum_at(pts, pts.len() - 1) <= LENGTH_CAP)
            &&& (r is Ok ==> r->Ok_0.spline_points@ == pts)
            &&& (r is Err ==> r->Err_0 == SplineError::OutOfRange)
            &&& pts.len() >= 2
            &&& pts[0] == cp[0]
            &&& pts[pts.len() - 1] == cp[cp.len() - 1]
        })
    })
}

impl Spline {
    /// Builds the spline of a slider from its authored shape, control
    /// points and target pixel length.
    ///
    /// With exactly two control points the curve is always linear. A
    /// linear spline is exactly the start point and the start carried
    /// `pixel_length` along the unit direction to the second point; a
    /// circular arc is sampled one point per pixel; a Bézier is flattened
    /// adaptively per red-anchor segment. The arc-length table of the
    /// result is exactly the running sum of consecutive sample distances.
    pub fn from_control(kind: CurveKind, control_points: &Vec<Point>, pixel_length: i64) -> (r:
        Result<Spline, SplineError>)
        requires
            2 <= control_points@.len() <= 0x1000_0000,
            forall|i: int|
                0 <= i < control_points@.len() ==> (#[trigger] control_points@[i]).bounded(
                    CTRL_LIMIT as int,
                ),
            0 <= pixel_length <= LEN_LIMIT,
        ensures
            build_matches(kind, control_points@, pixel_length as int, r),
    {
        let n_pts = control_points.len();
        let eff = if n_pts == 2 {
            CurveKind::Linear
        } else {
            kind
        };
        let points: Vec<Point> = match eff {
            CurveKind::Linear => {
                match linear_points(control_points[0], control_points[1], pixel_length) {
                    Ok(p) => p,
                    Err(e) => {
                        return Err(e);
                    },
                }
            },
            CurveKind::Perfect => {
                match perfect_points(
                    control_points[0],
                    control_points[1],
                    control_points[2],
                    pixel_length,
                ) {
                    Ok(p) => p,
                    Err(e) => {
                        return Err(e);
                    },
                }
            },
            CurveKind::Bezier => {
                match bezier_points(control_points) {
                    Ok(p) => p,
                    Err(e) => {
                        return Err(e);
                    },
                }
            },
        };
        proof {
            if effective_kind(kind, control_points@.len() as int) is Linear {
                lemma_cum_bound(points@, points@.len() - 1);
            }
            if effective_kind(kind, control_points@.len() as int) is Perfect {
                vstd::arithmetic::div_mod::lemma_div_pos_is_pos(
                    pixel_length as int + (SUBPIX as int - 1),
                    SUBPIX as int,
                );
                vstd::arithmetic::div_mod::lemma_div_is_ordered(
                    pixel_length as int + (SUBPIX as int - 1),
                    0x100_00FF,
                    SUBPIX as int,
                );
                lemma_cum_bound(points@, points@.len() - 1);
            }
        }
        let lengths = match build_lengths(&points) {
            Ok(l) => l,
            Err(e) => {
                return Err(e);
            },
        };
        Ok(Spline { spline_points: points, cumulative_lengths: lengths })
    }
}

/// Law: a curve given exactly two control points is treated as linear, no
/// matter which shape it was authored with; in particular a two-point
/// Bézier builds exactly what a two-point linear curve builds.
pub proof fn lemma_two_point_override(kind: CurveKind, n: int)
    requires
        n == 2,
    ensures
        effective_kind(kind, n) is Linear,
        effective_kind(kind, n) == effective_kind(CurveKind::Linear, n),
{
}

/// Law: for every well-formed spline the arc-length table starts at zero
/// and never decreases.
pub proof fn lemma_arc_length_monotone(s: Spline, i: int, j: int)
    requires
        s.wf(),
        0 <= i <= j < s.cumulative_lengths@.len(),
    ensures
        s.cumulative_lengths@[0] == 0,
        s.cumulative_lengths@[i] <= s.cumulative_lengths@[j],
{
    assert(s.cumulative_lengths@[0] as int == cum_at(s.spline_points@, 0));
    lemma_cum_monotone(s.spline_points@, i, j);
}

/// The bracket index is in range and sits at or under the queried length
/// whenever the table starts at or under it.
proof fn lemma_bracket_props(cum: Seq<i64>, length: int, m: int)
    requires
        0 <= m < cum.len(),
        cum[0] <= length,
    ensures
        0 <= bracket(cum, length, m) <= m,
        cum[bracket(cum, length, m)] <= length,
    decreases m,
{
    if m > 0 && !(cum[m] <= length) {
        lemma_bracket_props(cum, length, m - 1);
    }
}

/// Law: querying at distance zero returns the first sample, and querying
/// at the final table entry returns the last sample, exactly.
pub proof fn lemma_query_boundary(s: Spline)
    requires
        s.wf(),
    ensures
        query_model(s, 0) == s.spline_points@[0],
        query_model(s, s.cumulative_lengths@.last() as int) == s.spline_points@.last(),
{
    let pts = s.spline_points@;
    let cum = s.cumulative_lengths@;
    let n = pts.len() - 1;
    lemma_cum_monotone(pts, 0, n);
    assert(cum[n] as int == cum_at(pts, n));
    assert(cum[0] as int == cum_at(pts, 0));
    if cum[n] <= 0 {
        lemma_equal_cum_equal_points(pts, 0, n);
    } else {
        lemma_bracket_props(cum, 0, n - 1);
        let i = bracket(cum, 0, n - 1);
        assert(cum[i] as int == cum_at(pts, i));
        lemma_cum_monotone(pts, 0, i);
        assert(cum[i] == 0);
        lemma_equal_cum_equal_points(pts, 0, i);
    }
}

/// One coordinate lies between two others.
pub open spec fn between(a: int, x: int, b: int) -> bool {
    if a <= b {
        a <= x <= b
    } else {
        b <= x <= a
    }
}

/// The interpolated coordinate stays between its endpoints.
proof fn lemma_lerp_between(a: int, b: int, num: int, den: int)
    requires
        0 <= num < den,
    ensures
        between(a, lerp_val(a, b, num, den), b),
{
    let diff = b - a;
    if diff >= 0 {
        assert(0 <= diff * num <= diff * den) by (nonlinear_arith)
            requires
                0 <= diff,
                0 <= num <= den,
        ;
        assert(diff * den == den * diff) by (nonlinear_arith);
        vstd::arithmetic::div_mod::lemma_div_is_ordered(diff * num, diff * den, den);
        vstd::arithmetic::div_mod::lemma_div_multiples_vanish(diff, den);
        vstd::arithmetic::div_mod::lemma_div_pos_is_pos(diff * num, den);
    } else {
        let nd = -diff;
        assert(nd * num == -(diff * num)) by (nonlinear_arith)
            requires
                nd == -diff,
        ;
        assert(0 <= nd * num <= nd * den) by (nonlinear_arith)
            requires
                0 <= nd,
                0 <= num <= den,
        ;
        assert(nd * den == den * nd) by (nonlinear_arith);
        vstd::arithmetic::div_mod::lemma_div_is_ordered(nd * num, nd * den, den);
        vstd::arithmetic::div_mod::lemma_div_multiples_vanish(nd, den);
        vstd::arithmetic::div_mod::lemma_div_pos_is_pos(nd * num, den);
    }
}

/// Law: a length strictly between two consecutive table entries is
/// answered from exactly that segment: the result is the proportional
/// point `p_i + (p_{i+1} - p_i) * (length - len_i) / (len_{i+1} - len_i)`
/// (in the fixed-point arithmetic of the engine), and each of its
/// coordinates lies between the segment's endpoints.
pub proof fn lemma_query_interpolates(s: Spline, length: int, i: int)
    requires
        s.wf(),
        0 <= i < s.cumulative_lengths@.len() - 1,
        s.cumulative_lengths@[i] < length < s.cumulative_lengths@[i + 1],
    ensures
        query_model(s, length) == lerp_point(
            s.spline_points@[i],
            s.spline_points@[i + 1],
            length - s.cumulative_lengths@[i],
            s.cumulative_lengths@[i + 1] - s.cumulative_lengths@[i],
        ),
        between(
            s.spline_points@[i].x as int,
            query_model(s, length).x as int,
            s.spline_points@[i + 1].x as int,
        ),
        between(
            s.spline_points@[i].y as int,
            query_model(s, length).y as int,
            s.spline_points@[i + 1].y as int,
        ),
{
    let pts = s.spline_points@;
    let cum = s.cumulative_lengths@;
    let n = pts.len() - 1;
    lemma_cum_monotone(pts, 0, i);
    lemma_cum_monotone(pts, i + 1, n);
    assert(cum[i] as int == cum_at(pts, i));
    assert(cum[0] as int == cum_at(pts, 0));
    assert(cum[i + 1] as int == cum_at(pts, i + 1));
    assert(cum[n] as int == cum_at(pts, n));
    lemma_spline_cum_sorted(s);
    lemma_bracket_is(cum, length, n - 1, i);
    let num = length - cum[i];
    let den = cum[i + 1] - cum[i];
    lemma_lerp_between(pts[i].x as int, pts[i + 1].x as int, num as int, den as int);
    lemma_lerp_between(pts[i].y as int, pts[i + 1].y as int, num as int, den as int);
    assert(pts[i].bounded(COORD_LIMIT as int));
    assert(pts[i + 1].bounded(COORD_LIMIT as int));
}

} // verus!
