//! Editing-mode state: the tool palette and the promotion of an
//! in-progress slider's shape as anchors are added.

use vstd::prelude::*;

use crate::spline::CurveKind;

verus! {

/// The tool the editor currently works with.
#[derive(Clone, Copy, Debug, PartialEq, Eq, Structural)]
pub enum Tool {
    Select,
    Circle,
    Slider,
}

/// The shape a slider under construction takes once it has `after_len`
/// control points.
pub open spec fn upgrade_spec(initial_type: CurveKind, after_len: int) -> CurveKind {
    if initial_type is Linear && after_len == 3 {
        CurveKind::Perfect
    } else if initial_type is Perfect && after_len == 4 {
        CurveKind::Bezier
    } else {
        initial_type
    }
}

/// Promotes the shape of a slider being drawn: a third anchor turns a
/// line into a circular arc, a fourth turns the arc into a Bézier; any
/// further anchor keeps the shape.
pub fn upgrade_slider_type(initial_type: CurveKind, after_len: usize) -> (r: CurveKind)
    ensures
        r == upgrade_spec(initial_type, after_len as int),
{
    match (initial_type, after_len) {
        (CurveKind::Linear, 3) => CurveKind::Perfect,
        (CurveKind::Perfect, 4) => CurveKind::Bezier,
        _ => initial_type,
    }
}

} // verus!
