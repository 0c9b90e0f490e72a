//! Core engine of an osu! beatmap editor.
//!
//! The heart of the crate is the slider geometry engine: it turns a sparse
//! sequence of author-placed control points (linear, circular-arc, or Bézier
//! with red anchors) into a densely sampled, arc-length parameterized
//! polyline, and answers "where is the slider ball after travelling this far"
//! queries against it. Next to it stands the stacking engine, a two-pass,
//! time-windowed proximity pass that assigns integer stack offsets to
//! near-coincident hit objects so they render legibly.
//!
//! All geometry is carried out in fixed-point arithmetic: coordinates and
//! lengths are integers counting [`geom::SUBPIX`] units per osu! pixel. The
//! rendering layer converts to screen space at the very edge.

pub mod arc;
pub mod bezier;
pub mod cache;
pub mod editor;
pub mod framework;
pub mod geom;
pub mod spline;
pub mod stacking;
pub mod utils;

pub use cache::SliderCache;
pub use editor::Tool;
pub use geom::{Math, Point};
pub use spline::{CurveKind, Spline, SplineError};
pub use stacking::{BeatmapExt, HitObjectExt, ObjectKind};
