//! Adaptive Bézier flattening: de Casteljau midpoint subdivision with a
//! flatness test, the shape in which slider bodies are rendered.
//!
//! A pending segment is subdivided until every interior second difference
//! of its control polygon is small enough, then emitted through a
//! quadratic-smoothing approximation: only flat pieces ever contribute
//! output points. The work queue is explicit, so deep subdivision cannot
//! exhaust the call stack, and a generous fuel bound keeps the loop
//! provably finite: a curve that somehow outlives the fuel is refused
//! rather than approximated badly.

use vstd::prelude::*;

use crate::geom::{lemma_tdiv_bound, tdiv, tdiv2, tdiv4, Point};
use crate::spline::{SplineError, CTRL_LIMIT};

verus! {

/// Squared flatness tolerance for a second-difference vector, in squared
/// fixed-point units: (a quarter pixel / 2)^2.
pub const FLATNESS_SQ: i64 = 1024;

/// Subdivisions allowed before a piece is emitted as it stands.
pub const SUBDIV_FUEL: usize = 0x10_0000;

/// The midpoint of two points, each coordinate rounded toward zero.
pub open spec fn midpoint(a: Point, b: Point) -> Point {
    Point { x: tdiv(a.x + b.x, 2) as i64, y: tdiv(a.y + b.y, 2) as i64 }
}

/// Midpoints of each consecutive pair.
pub open spec fn pairwise_mid(s: Seq<Point>) -> Seq<Point> {
    Seq::new((s.len() - 1) as nat, |k: int| midpoint(s[k], s[k + 1]))
}

/// Row `j` of the de Casteljau midpoint triangle over `c`.
pub open spec fn dc_row(c: Seq<Point>, j: int) -> Seq<Point>
    decreases j,
{
    if j <= 0 {
        c
    } else {
        pairwise_mid(dc_row(c, j - 1))
    }
}

proof fn lemma_dc_row_len(c: Seq<Point>, j: int)
    requires
        0 <= j < c.len(),
    ensures
        dc_row(c, j).len() == c.len() - j,
    decreases j,
{
    if j > 0 {
        lemma_dc_row_len(c, j - 1);
    }
}

/// The control points of the left half of a subdivided segment.
pub open spec fn left_points(c: Seq<Point>) -> Seq<Point> {
    Seq::new(c.len(), |i: int| dc_row(c, i)[0])
}

/// The control points of the right half of a subdivided segment.
pub open spec fn right_points(c: Seq<Point>) -> Seq<Point> {
    Seq::new(c.len(), |i: int| dc_row(c, c.len() - 1 - i)[i])
}

/// The squared magnitude of the second difference at interior index `i`.
pub open spec fn second_diff_sq(c: Seq<Point>, i: int) -> int {
    let px = c[i - 1].x - 2 * c[i].x + c[i + 1].x;
    let py = c[i - 1].y - 2 * c[i].y + c[i + 1].y;
    px * px + py * py
}

/// A control polygon is flat enough once every interior second difference
/// is within the tolerance.
pub open spec fn flat_spec(c: Seq<Point>) -> bool {
    forall|i: int| 1 <= i < c.len() - 1 ==> second_diff_sq(c, i) <= FLATNESS_SQ
}

/// The quadratic-smoothed output point at position `i` of the combined
/// left-and-right control sequence.
pub open spec fn smooth_at(lr: Seq<Point>, i: int) -> Point {
    Point {
        x: tdiv(lr[2 * i - 1].x + 2 * lr[2 * i].x + lr[2 * i + 1].x, 4) as i64,
        y: tdiv(lr[2 * i - 1].y + 2 * lr[2 * i].y + lr[2 * i + 1].y, 4) as i64,
    }
}

/// The smoothed output point `i` of a piece: the quadratic average over
/// the subdivided control points.
pub open spec fn approx_at(c: Seq<Point>, i: int) -> Point {
    smooth_at(left_points(c) + right_points(c).skip(1), i)
}

/// The points a flat piece contributes: its first control point, then the
/// smoothed midpoints of one further subdivision.
pub open spec fn approx_spec(c: Seq<Point>) -> Seq<Point> {
    seq![c[0]] + Seq::new(
        if c.len() >= 2 {
            (c.len() - 2) as nat
        } else {
            0
        },
        |i: int| approx_at(c, i + 1),
    )
}

/// The midpoint of two in-range points.
fn midpoint_exec(a: Point, b: Point) -> (r: Point)
    requires
        a.bounded(CTRL_LIMIT as int),
        b.bounded(CTRL_LIMIT as int),
    ensures
        r == midpoint(a, b),
        r.bounded(CTRL_LIMIT as int),
{
    proof {
        lemma_tdiv_bound(a.x + b.x, 2, CTRL_LIMIT as int);
        lemma_tdiv_bound(a.y + b.y, 2, CTRL_LIMIT as int);
    }
    Point { x: tdiv2(a.x + b.x), y: tdiv2(a.y + b.y) }
}

/// Whether every interior second difference of the control polygon is
/// within the flatness tolerance.
fn bezier_flat_enough(curve: &Vec<Point>) -> (r: bool)
    requires
        curve@.len() >= 1,
        forall|i: int| 0 <= i < curve@.len() ==> (#[trigger] curve@[i]).bounded(CTRL_LIMIT as int),
    ensures
        r == flat_spec(curve@),
{
    let count = curve.len();
    if count < 3 {
        return true;
    }
    let mut i: usize = 1;
    while i < count - 1
        invariant
            1 <= i <= count - 1,
            3 <= count,
            count == curve@.len(),
            forall|q: int|
                0 <= q < curve@.len() ==> (#[trigger] curve@[q]).bounded(CTRL_LIMIT as int),
            forall|q: int| 1 <= q < i ==> second_diff_sq(curve@, q) <= FLATNESS_SQ,
        decreases count - 1 - i,
    {
        let px = curve[i - 1].x - 2 * curve[i].x + curve[i + 1].x;
        let py = curve[i - 1].y - 2 * curve[i].y + curve[i + 1].y;
        proof {
            assert(0 <= (px as int) * (px as int) <= 0x400_0000 * 0x400_0000) by (nonlinear_arith)
                requires
                    -0x400_0000 <= px as int <= 0x400_0000,
            ;
            assert(0 <= (py as int) * (py as int) <= 0x400_0000 * 0x400_0000) by (nonlinear_arith)
                requires
                    -0x400_0000 <= py as int <= 0x400_0000,
            ;
        }
        if px * px + py * py > FLATNESS_SQ {
            proof {
                assert(second_diff_sq(curve@, i as int) > FLATNESS_SQ);
            }
            return false;
        }
        i += 1;
    }
    true
}

/// De Casteljau midpoint subdivision of a segment into its two halves.
fn bezier_subdivide(curve: &Vec<Point>) -> (r: (Vec<Point>, Vec<Point>))
    requires
        1 <= curve@.len() <= 0x1000_0000,
        forall|i: int| 0 <= i < curve@.len() ==> (#[trigger] curve@[i]).bounded(CTRL_LIMIT as int),
    ensures
        r.0@ =~= left_points(curve@),
        r.1@ =~= right_points(curve@),
        forall|i: int| 0 <= i < r.0@.len() ==> (#[trigger] r.0@[i]).bounded(CTRL_LIMIT as int),
        forall|i: int| 0 <= i < r.1@.len() ==> (#[trigger] r.1@[i]).bounded(CTRL_LIMIT as int),
{
    let count = curve.len();
    let mut mid: Vec<Point> = Vec::new();
    let mut t: usize = 0;
    while t < count
        invariant
            t <= count,
            count == curve@.len(),
            mid@.len() == t,
            forall|q: int| 0 <= q < t ==> mid@[q] == curve@[q],
        decreases count - t,
    {
        mid.push(curve[t]);
        t += 1;
    }
    let mut l: Vec<Point> = Vec::new();
    let mut rv: Vec<Point> = Vec::new();
    let mut t2: usize = 0;
    while t2 < count
        invariant
            t2 <= count,
            rv@.len() == t2,
        decreases count - t2,
    {
        rv.push(Point { x: 0, y: 0 });
        t2 += 1;
    }
    let mut i: usize = 0;
    while i < count
        invariant
            i <= count,
            count == curve@.len(),
            count <= 0x1000_0000,
            forall|q: int|
                0 <= q < curve@.len() ==> (#[trigger] curve@[q]).bounded(CTRL_LIMIT as int),
            mid@.len() == count,
            l@.len() == i,
            rv@.len() == count,
            forall|q: int|
                0 <= q < count - i ==> #[trigger] mid@[q] == dc_row(curve@, i as int)[q]
                    && mid@[q].bounded(CTRL_LIMIT as int),
            forall|q: int|
                0 <= q < i ==> #[trigger] l@[q] == left_points(curve@)[q] && l@[q].bounded(
                    CTRL_LIMIT as int,
                ),
            forall|q: int|
                count - i <= q < count ==> #[trigger] rv@[q] == right_points(curve@)[q]
                    && rv@[q].bounded(CTRL_LIMIT as int),
        decreases count - i,
    {
        proof {
            lemma_dc_row_len(curve@, i as int);
        }
        l.push(mid[0]);
        rv.set(count - i - 1, mid[count - i - 1]);
        let mut j: usize = 0;
        while j < count - i - 1
            invariant
                i < count,
                count == curve@.len(),
                count <= 0x1000_0000,
                j <= count - i - 1,
                mid@.len() == count,
                dc_row(curve@, i as int).len() == count - i,
                dc_row(curve@, i as int + 1) == pairwise_mid(dc_row(curve@, i as int)),
                forall|q: int|
                    0 <= q < j ==> #[trigger] mid@[q] == dc_row(curve@, i as int + 1)[q]
                        && mid@[q].bounded(CTRL_LIMIT as int),
                forall|q: int|
                    j <= q < count - i ==> #[trigger] mid@[q] == dc_row(curve@, i as int)[q]
                        && mid@[q].bounded(CTRL_LIMIT as int),
            decreases count - i - 1 - j,
        {
            let m = midpoint_exec(mid[j], mid[j + 1]);
            mid.set(j, m);
            j += 1;
        }
        i += 1;
    }
    (l, rv)
}

/// Emits the points a flat piece contributes to the polyline.
fn bezier_approximate(curve: &Vec<Point>, output: &mut Vec<Point>)
    requires
        1 <= curve@.len() <= 0x1000_0000,
        forall|i: int| 0 <= i < curve@.len() ==> (#[trigger] curve@[i]).bounded(CTRL_LIMIT as int),
    ensures
        final(output)@ =~= old(output)@ + approx_spec(curve@),
        forall|i: int|
            old(output)@.len() <= i < final(output)@.len() ==> (#[trigger] final(output)@[i]).bounded(
                CTRL_LIMIT as int,
            ),
{
    let count = curve.len();
    let (l, r) = bezier_subdivide(curve);
    let mut lr = l;
    let mut t: usize = 1;
    while t < count
        invariant
            1 <= t <= count,
            count == curve@.len(),
            output@ == old(output)@,
            r@ =~= right_points(curve@),
            lr@.len() == count + t - 1,
            lr@ =~= left_points(curve@) + right_points(curve@).subrange(1, t as int),
            forall|q: int| 0 <= q < lr@.len() ==> (#[trigger] lr@[q]).bounded(CTRL_LIMIT as int),
            forall|q: int| 0 <= q < r@.len() ==> (#[trigger] r@[q]).bounded(CTRL_LIMIT as int),
        decreases count - t,
    {
        lr.push(r[t]);
        t += 1;
    }
    proof {
        assert(lr@ =~= left_points(curve@) + right_points(curve@).skip(1));
    }
    let ghost out0 = output@;
    output.push(curve[0]);
    let mut i: usize = 1;
    while i + 1 < count
        invariant
            1 <= i,
            i <= 0x1000_0000,
            count >= 2 ==> i <= count - 1,
            count < 2 ==> i == 1,
            count == curve@.len(),
            1 <= count <= 0x1000_0000,
            lr@.len() == 2 * count - 1,
            lr@ =~= left_points(curve@) + right_points(curve@).skip(1),
            forall|q: int| 0 <= q < lr@.len() ==> (#[trigger] lr@[q]).bounded(CTRL_LIMIT as int),
            out0 == old(output)@,
            output@.len() == out0.len() + i,
            forall|q: int| 0 <= q < out0.len() ==> #[trigger] output@[q] == out0[q],
            output@[out0.len() as int] == curve@[0],
            forall|q: int|
                out0.len() + 1 <= q < output@.len() ==> #[trigger] output@[q] == approx_at(
                    curve@,
                    q - out0.len(),
                ),
            forall|q: int|
                out0.len() <= q < output@.len() ==> (#[trigger] output@[q]).bounded(
                    CTRL_LIMIT as int,
                ),
            curve@[0].bounded(CTRL_LIMIT as int),
        decreases count - 1 - i,
    {
        let idx = 2 * i;
        let sx = lr[idx - 1].x + 2 * lr[idx].x + lr[idx + 1].x;
        let sy = lr[idx - 1].y + 2 * lr[idx].y + lr[idx + 1].y;
        proof {
            lemma_tdiv_bound(sx as int, 4, CTRL_LIMIT as int);
            lemma_tdiv_bound(sy as int, 4, CTRL_LIMIT as int);
        }
        let p = Point { x: tdiv4(sx), y: tdiv4(sy) };
        proof {
            assert(p == smooth_at(lr@, i as int));
            assert(p == approx_at(curve@, i as int));
        }
        output.push(p);
        i += 1;
    }
    proof {
        if count >= 2 {
            assert(i == count - 1);
        }
        let rhs = old(output)@ + approx_spec(curve@);
        assert(approx_spec(curve@).len() == 1 + (if count >= 2 {
            (count - 2) as int
        } else {
            0
        }));
        assert(output@.len() == rhs.len());
        assert forall|q: int| 0 <= q < output@.len() implies output@[q] == rhs[q] by {
            if q > out0.len() {
                assert(output@[q] == approx_at(curve@, q - out0.len()));
                assert(rhs[q] == approx_spec(curve@)[q - out0.len()]);
                assert(approx_spec(curve@)[q - out0.len()] == approx_at(curve@, q - out0.len()));
            } else if q == out0.len() {
                assert(rhs[q] == approx_spec(curve@)[0]);
                assert(approx_spec(curve@)[0] == curve@[0]);
            }
        };
        assert(output@ =~= rhs);
    }
}

/// The views of a stack of pending pieces.
pub open spec fn views_of(s: Seq<Vec<Point>>) -> Seq<Seq<Point>> {
    s.map_values(|v: Vec<Point>| v@)
}

proof fn lemma_views_push(s: Seq<Vec<Point>>, v: Vec<Point>)
    ensures
        views_of(s.push(v)) =~= views_of(s).push(v@),
{
}

proof fn lemma_views_drop(s: Seq<Vec<Point>>)
    requires
        s.len() > 0,
    ensures
        views_of(s.drop_last()) =~= views_of(s).drop_last(),
        views_of(s).last() == s.last()@,
        views_of(s).len() == s.len(),
{
    assert(s.drop_last() =~= s.subrange(0, s.len() - 1));
}

/// What the flattening work loop produces from a stack of pending pieces:
/// the top piece is taken; a flat piece appends its approximation to the
/// output, any other piece is subdivided into its two halves at the cost
/// of one unit of fuel, and a still-unflat piece at zero fuel refuses the
/// whole curve.
pub open spec fn flatten_spec(stack: Seq<Seq<Point>>, fuel: int, out: Seq<Point>) -> Option<
    Seq<Point>,
>
    decreases fuel, stack.len(),
{
    if stack.len() == 0 {
        Some(out)
    } else {
        let piece = stack.last();
        let rest = stack.drop_last();
        if flat_spec(piece) {
            flatten_spec(rest, fuel, out + approx_spec(piece))
        } else if fuel <= 0 {
            None
        } else {
            flatten_spec(rest.push(right_points(piece)).push(left_points(piece)), fuel - 1, out)
        }
    }
}

/// What flattening one segment returns: the adaptive subdivision of the
/// segment, with the true final control point appended verbatim, or
/// nothing when the subdivision budget runs out.
pub open spec fn calculate_bezier_spec(points: Seq<Point>) -> Option<Seq<Point>> {
    match flatten_spec(seq![points], SUBDIV_FUEL as int, Seq::empty()) {
        Some(out) => Some(out.push(points.last())),
        None => None,
    }
}

/// Flattens one Bézier segment into polyline points, ending exactly on the
/// final control point. Fails only when the subdivision budget runs out.
pub(crate) fn calculate_bezier(points: &Vec<Point>) -> (r: Result<Vec<Point>, SplineError>)
    requires
        1 <= points@.len() <= 0x1000_0000,
        forall|i: int|
            0 <= i < points@.len() ==> (#[trigger] points@[i]).bounded(CTRL_LIMIT as int),
    ensures
        (r is Ok) == (calculate_bezier_spec(points@) is Some),
        r is Err ==> r->Err_0 == SplineError::OutOfRange,
        r is Ok ==> ({
            let pts = r->Ok_0@;
            &&& pts == calculate_bezier_spec(points@)->Some_0
            &&& pts.len() >= 2
            &&& pts[0] == points@[0]
            &&& pts[pts.len() - 1] == points@[points@.len() - 1]
            &&& forall|i: int| 0 <= i < pts.len() ==> (#[trigger] pts[i]).bounded(CTRL_LIMIT as int)
        }),
{
    let count = points.len();
    let last = points[count - 1];
    let mut output: Vec<Point> = Vec::new();
    let mut first_piece: Vec<Point> = Vec::new();
    let mut t: usize = 0;
    while t < count
        invariant
            t <= count,
            count == points@.len(),
            first_piece@.len() == t,
            forall|q: int| 0 <= q < t ==> first_piece@[q] == points@[q],
        decreases count - t,
    {
        first_piece.push(points[t]);
        t += 1;
    }
    proof {
        assert(first_piece@ =~= points@);
    }
    let ghost target = flatten_spec(seq![points@], SUBDIV_FUEL as int, Seq::empty());
    let mut stack: Vec<Vec<Point>> = Vec::new();
    stack.push(first_piece);
    proof {
        assert(views_of(stack@) =~= seq![points@]);
    }
    let mut fuel: usize = SUBDIV_FUEL;
    while stack.len() > 0
        invariant
            forall|s: int|
                0 <= s < stack@.len() ==> {
                    &&& 1 <= (#[trigger] stack@[s])@.len() <= 0x1000_0000
                    &&& forall|q: int|
                        0 <= q < stack@[s]@.len() ==> (#[trigger] stack@[s]@[q]).bounded(
                            CTRL_LIMIT as int,
                        )
                },
            output@.len() == 0 ==> stack@.len() > 0 && stack@[stack@.len() - 1]@[0] == points@[0],
            output@.len() > 0 ==> output@[0] == points@[0],
            forall|q: int| 0 <= q < output@.len() ==> (#[trigger] output@[q]).bounded(
                CTRL_LIMIT as int,
            ),
            target == flatten_spec(seq![points@], SUBDIV_FUEL as int, Seq::empty()),
            target == flatten_spec(views_of(stack@), fuel as int, output@),
        decreases fuel, stack@.len(),
    {
        let ghost stack0 = stack@;
        let piece = stack.pop().unwrap();
        proof {
            lemma_views_drop(stack0);
            assert(views_of(stack@) =~= views_of(stack0).drop_last());
            assert(piece@ == views_of(stack0).last());
        }
        if bezier_flat_enough(&piece) {
            bezier_approximate(&piece, &mut output);
        } else {
            if fuel == 0 {
                proof {
                    assert(views_of(stack0).len() > 0);
                    assert(!flat_spec(views_of(stack0).last()));
                    assert(flatten_spec(views_of(stack0), fuel as int, output@) is None);
                    assert(target is None);
                }
                return Err(SplineError::OutOfRange);
            }
            fuel -= 1;
            let (lhalf, rhalf) = bezier_subdivide(&piece);
            let ghost stack1 = stack@;
            stack.push(rhalf);
            let ghost stack2 = stack@;
            stack.push(lhalf);
            proof {
                assert(lhalf@[0] == dc_row(piece@, 0)[0]);
                lemma_views_push(stack1, rhalf);
                lemma_views_push(stack2, lhalf);
                assert(views_of(stack@) =~= views_of(stack0).drop_last().push(
                    right_points(piece@),
                ).push(left_points(piece@)));
            }
        }
    }
    output.push(last);
    proof {
        assert(views_of(stack@).len() == 0);
        assert(target == Some(output@.drop_last()));
        assert(calculate_bezier_spec(points@)->Some_0 =~= output@);
    }
    Ok(output)
}

} // verus!
