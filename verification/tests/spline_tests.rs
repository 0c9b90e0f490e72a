use editor_core::geom::dist;
use editor_core::{CurveKind, Math, Point, Spline, SplineError};

fn pt(x: i64, y: i64) -> Point {
    Point { x, y }
}

/// One osu! pixel in fixed-point units.
const PX: i64 = 256;

#[test]
fn distance_is_exact_on_pythagorean_triples() {
    assert_eq!(dist(pt(0, 0), pt(3 * PX, 4 * PX)), 5 * PX);
    assert_eq!(dist(pt(0, 0), pt(0, 0)), 0);
    assert_eq!(dist(pt(-3 * PX, 0), pt(0, -4 * PX)), 5 * PX);
}

#[test]
fn circumcircle_of_symmetric_triangle() {
    let r = Math::circumcircle(pt(0, 0), pt(PX, PX), pt(2 * PX, 0)).unwrap();
    assert_eq!(r.0, pt(PX, 0));
    assert_eq!(r.1, PX);
}

#[test]
fn circumcircle_rejects_collinear_points() {
    let r = Math::circumcircle(pt(0, 0), pt(PX, 0), pt(2 * PX, 0));
    assert_eq!(r.unwrap_err(), SplineError::DegenerateCurve);
}

#[test]
fn linear_spline_is_start_plus_unit_times_length() {
    let cp = vec![pt(0, 0), pt(3 * PX, 4 * PX)];
    let s = Spline::from_control(CurveKind::Linear, &cp, 10 * PX).unwrap();
    assert_eq!(s.spline_points, vec![pt(0, 0), pt(6 * PX, 8 * PX)]);
    assert_eq!(s.cumulative_lengths, vec![0, 10 * PX]);
}

#[test]
fn linear_spline_with_zero_length_stays_at_start() {
    let cp = vec![pt(PX, PX), pt(2 * PX, PX)];
    let s = Spline::from_control(CurveKind::Linear, &cp, 0).unwrap();
    assert_eq!(s.spline_points, vec![pt(PX, PX), pt(PX, PX)]);
    assert_eq!(s.cumulative_lengths, vec![0, 0]);
}

#[test]
fn linear_spline_rejects_coincident_direction_points() {
    let cp = vec![pt(PX, PX), pt(PX, PX)];
    let r = Spline::from_control(CurveKind::Linear, &cp, 5 * PX);
    assert_eq!(r.unwrap_err(), SplineError::DegenerateCurve);
}

#[test]
fn two_point_bezier_builds_the_linear_spline() {
    let cp = vec![pt(0, 0), pt(3 * PX, 4 * PX)];
    let b = Spline::from_control(CurveKind::Bezier, &cp, 10 * PX).unwrap();
    let l = Spline::from_control(CurveKind::Linear, &cp, 10 * PX).unwrap();
    assert_eq!(b.spline_points, l.spline_points);
    assert_eq!(b.cumulative_lengths, l.cumulative_lengths);
}

#[test]
fn two_point_perfect_builds_the_linear_spline() {
    let cp = vec![pt(0, 0), pt(0, 2 * PX)];
    let p = Spline::from_control(CurveKind::Perfect, &cp, 4 * PX).unwrap();
    let l = Spline::from_control(CurveKind::Linear, &cp, 4 * PX).unwrap();
    assert_eq!(p.spline_points, l.spline_points);
    assert_eq!(p.cumulative_lengths, l.cumulative_lengths);
}

#[test]
fn cumulative_lengths_start_at_zero_and_never_decrease() {
    let cp = vec![pt(0, 0), pt(100 * PX, 0), pt(100 * PX, 100 * PX)];
    let s = Spline::from_control(CurveKind::Bezier, &cp, 150 * PX).unwrap();
    assert_eq!(s.cumulative_lengths[0], 0);
    for w in s.cumulative_lengths.windows(2) {
        assert!(w[0] <= w[1]);
    }
    assert_eq!(s.spline_points.len(), s.cumulative_lengths.len());
    assert!(s.spline_points.len() >= 2);
}

#[test]
fn query_at_zero_is_first_point_and_at_end_is_last_point() {
    let cp = vec![pt(0, 0), pt(100 * PX, 0), pt(100 * PX, 100 * PX)];
    let s = Spline::from_control(CurveKind::Bezier, &cp, 150 * PX).unwrap();
    assert_eq!(s.position_at_length(0), s.spline_points[0]);
    let last_len = *s.cumulative_lengths.last().unwrap();
    assert_eq!(
        s.position_at_length(last_len),
        *s.spline_points.last().unwrap()
    );
    // beyond the end clamps to the last point
    assert_eq!(
        s.position_at_length(last_len + 12345),
        *s.spline_points.last().unwrap()
    );
    // below the start clamps to the first point
    assert_eq!(s.position_at_length(-5 * PX), s.spline_points[0]);
}

#[test]
fn query_between_entries_interpolates_proportionally() {
    let cp = vec![pt(0, 0), pt(3 * PX, 4 * PX)];
    let s = Spline::from_control(CurveKind::Linear, &cp, 10 * PX).unwrap();
    // halfway along a straight 10-pixel spline: exactly the midpoint
    let p = s.position_at_length(5 * PX);
    assert_eq!(p, pt(3 * PX, 4 * PX));
    // the returned point lies on the segment between the two samples
    let q = s.position_at_length(PX);
    assert_eq!(q, pt((6 * PX * PX) / (10 * PX), (8 * PX * PX) / (10 * PX)));
    assert!(0 <= q.x && q.x <= 6 * PX);
    assert!(0 <= q.y && q.y <= 8 * PX);
}

#[test]
fn query_at_exact_entry_returns_that_sample() {
    let cp = vec![pt(0, 0), pt(100 * PX, 0), pt(100 * PX, 100 * PX)];
    let s = Spline::from_control(CurveKind::Bezier, &cp, 150 * PX).unwrap();
    for i in 0..s.spline_points.len() {
        let l = s.cumulative_lengths[i];
        let p = s.position_at_length(l);
        // equal table entries can only belong to equal samples
        assert_eq!(p, s.spline_points[i]);
    }
}

#[test]
fn bezier_with_red_anchor_splits_and_ends_on_last_control_point() {
    // four collinear control points with one duplicated pair (red anchor)
    let cp = vec![pt(0, 0), pt(PX, 0), pt(PX, 0), pt(2 * PX, 0)];
    let s = Spline::from_control(CurveKind::Bezier, &cp, 2 * PX).unwrap();
    assert_eq!(s.spline_points[0], pt(0, 0));
    assert_eq!(*s.spline_points.last().unwrap(), pt(2 * PX, 0));
    for p in &s.spline_points {
        assert_eq!(p.y, 0);
        assert!(0 <= p.x && p.x <= 2 * PX);
    }
}

#[test]
fn quarter_circle_arc_sampling() {
    // circle through (0,0), (1,1), (2,0): centre (1,0), radius one pixel
    let cp = vec![pt(0, 0), pt(PX, PX), pt(2 * PX, 0)];
    let quarter = (std::f64::consts::PI / 2.0 * PX as f64) as i64;
    let s = Spline::from_control(CurveKind::Perfect, &cp, quarter).unwrap();
    // at least one sample per whole pixel of target length
    assert!(s.spline_points.len() as i64 >= quarter / PX);
    assert_eq!(s.spline_points[0], pt(0, 0));
    // the last sample sits near the end angle t0 + length / radius
    let k = (s.spline_points.len() - 1) as f64;
    let theta = std::f64::consts::PI + k;
    let ex = PX as f64 + theta.cos() * PX as f64;
    let ey = -theta.sin() * PX as f64;
    let lp = *s.spline_points.last().unwrap();
    assert!((lp.x as f64 - ex).abs() < PX as f64 / 2.0);
    assert!((lp.y as f64 - ey).abs() < PX as f64 / 2.0);
    // and the arc bends upward through the middle control point's side
    assert!(s.spline_points.iter().any(|p| p.y > 0));
}

#[test]
fn perfect_arc_rejects_collinear_control_points() {
    let cp = vec![pt(0, 0), pt(PX, 0), pt(2 * PX, 0)];
    let r = Spline::from_control(CurveKind::Perfect, &cp, 2 * PX);
    assert_eq!(r.unwrap_err(), SplineError::DegenerateCurve);
}

#[test]
fn perfect_arc_rejects_a_nearly_flat_triple() {
    // an almost collinear triple has its circumcentre far outside the
    // supported coordinate range
    let cp = vec![pt(0, 0), pt(0x80_0000, PX), pt(0x100_0000, 0)];
    let r = Spline::from_control(CurveKind::Perfect, &cp, 100 * PX);
    assert_eq!(r.unwrap_err(), SplineError::OutOfRange);
}

#[test]
fn perfect_arc_rejects_sub_pixel_radius() {
    // circumradius about 0.7 px lies under the supported half-pixel floor
    let r = Spline::from_control(
        CurveKind::Perfect,
        &vec![pt(0, 0), pt(PX / 16, 0), pt(0, PX / 16)],
        PX,
    );
    assert_eq!(r.unwrap_err(), SplineError::DegenerateCurve);
}
