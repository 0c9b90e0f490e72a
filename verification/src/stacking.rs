//! The stacking engine and the combo-colour pass.
//!
//! Hit objects that sit close together in both time and space are "stacked":
//! each gets an integer stack offset, and the renderer shifts it along the
//! (-1,-1) diagonal by that many stack units. The algorithm runs in two
//! passes over the time-ordered object sequence: a forward pass that extends
//! the end of the affected range to objects stacked on top of it, and a
//! backward pass that assigns the actual offsets by scanning for the nearest
//! qualifying predecessor of each object.
//!
//! The engine computes the offsets freshly from the objects' positions and
//! times alone; the offsets it assigned earlier never influence a recompute,
//! so recomputing after an edit is safe and idempotent.

use vstd::prelude::*;

use crate::geom::{dist_sq_spec, Point, COORD_LIMIT};

verus! {

/// Two objects closer than this (in fixed-point units) stack: 3 osu! pixels.
pub const STACK_DISTANCE: i64 = 3 * 256;

/// Bound on the magnitude of any time stamp, in milliseconds.
pub const TIME_LIMIT: i64 = 0x100_0000_0000;

/// Bound on the approach preempt window, in milliseconds.
pub const PREEMPT_LIMIT: i64 = 0x10_0000;

/// Stack leniency is carried in thousandths, so `1000` is the osu! value 1.0.
pub const LENIENCY_SCALE: i64 = 1000;

/// The hit-object shapes the stacking pass distinguishes.
#[derive(Clone, Copy, Debug, PartialEq, Eq, Structural)]
pub enum ObjectKind {
    Circle,
    Slider,
    Spinner,
}

/// A parsed hit object together with the per-object annotations the editor
/// derives: the stack offset, the combo number and the combo colour index.
///
/// Times come from the timing provider of the host (milliseconds), and the
/// end position of a slider from its spline; circles and spinners carry
/// their own position as end position.
#[derive(Clone, Copy, Debug, PartialEq, Eq, Structural)]
pub struct HitObjectExt {
    pub kind: ObjectKind,
    pub pos: Point,
    pub end_pos: Point,
    pub start_time: i64,
    pub end_time: i64,
    pub new_combo: bool,
    pub stacking: i64,
    pub number: usize,
    pub color_idx: usize,
}

/// The fields of a hit object that the stacking pass reads. The derived
/// annotations are deliberately absent: stacking is a function of these
/// cores alone.
#[derive(Clone, Copy, Debug, PartialEq, Eq, Structural)]
pub struct ObjCore {
    pub kind: ObjectKind,
    pub pos: Point,
    pub end_pos: Point,
    pub start_time: i64,
    pub end_time: i64,
}

impl HitObjectExt {
    /// Wraps a parsed hit object, with all derived annotations cleared.
    pub fn new(
        kind: ObjectKind,
        pos: Point,
        end_pos: Point,
        start_time: i64,
        end_time: i64,
        new_combo: bool,
    ) -> (r: HitObjectExt)
        ensures
            r == (HitObjectExt {
                kind,
                pos,
                end_pos,
                start_time,
                end_time,
                new_combo,
                stacking: 0,
                number: 0,
                color_idx: 0,
            }),
    {
        HitObjectExt {
            kind,
            pos,
            end_pos,
            start_time,
            end_time,
            new_combo,
            stacking: 0,
            number: 0,
            color_idx: 0,
        }
    }

    /// The stacking-relevant projection of this object.
    pub open spec fn core_view(self) -> ObjCore {
        ObjCore {
            kind: self.kind,
            pos: self.pos,
            end_pos: self.end_pos,
            start_time: self.start_time,
            end_time: self.end_time,
        }
    }

    /// All coordinates and times within the ranges the engine arithmetic
    /// is proved safe for.
    pub open spec fn in_range(self) -> bool {
        &&& self.pos.bounded(COORD_LIMIT as int)
        &&& self.end_pos.bounded(COORD_LIMIT as int)
        &&& -TIME_LIMIT <= self.start_time <= TIME_LIMIT
        &&& -TIME_LIMIT <= self.end_time <= TIME_LIMIT
    }

    pub fn is_spinner(&self) -> (b: bool)
        ensures
            b == (self.kind is Spinner),
    {
        matches!(self.kind, ObjectKind::Spinner)
    }

    pub fn is_slider(&self) -> (b: bool)
        ensures
            b == (self.kind is Slider),
    {
        matches!(self.kind, ObjectKind::Slider)
    }

    pub fn is_circle(&self) -> (b: bool)
        ensures
            b == (self.kind is Circle),
    {
        matches!(self.kind, ObjectKind::Circle)
    }
}

/// A beatmap as the editor sees it: the ordered hit objects plus the two
/// per-map parameters the stacking pass needs.
pub struct BeatmapExt {
    pub hit_objects: Vec<HitObjectExt>,
    /// Stack leniency in thousandths; zero or less disables stacking.
    pub stack_leniency: i64,
    /// Approach preempt window in milliseconds.
    pub approach_preempt: i64,
}

impl BeatmapExt {
    /// Every object in range, and the parameters within their ranges.
    pub open spec fn wf(self) -> bool {
        &&& forall|i: int|
            0 <= i < self.hit_objects@.len() ==> (#[trigger] self.hit_objects@[i]).in_range()
        &&& 0 <= self.approach_preempt <= PREEMPT_LIMIT
        &&& self.stack_leniency <= LENIENCY_SCALE
    }

    /// The stacking-relevant projection of the whole object sequence.
    pub open spec fn cores(self) -> Seq<ObjCore> {
        self.hit_objects@.map_values(|h: HitObjectExt| h.core_view())
    }

    /// Wraps an already-parsed hit-object sequence.
    pub fn new(hit_objects: Vec<HitObjectExt>, stack_leniency: i64, approach_preempt: i64) -> (r:
        BeatmapExt)
        ensures
            r.hit_objects == hit_objects,
            r.stack_leniency == stack_leniency,
            r.approach_preempt == approach_preempt,
    {
        BeatmapExt { hit_objects, stack_leniency, approach_preempt }
    }
}

/// Whether two anchors are within stacking distance of each other.
pub open spec fn near(a: Point, b: Point) -> bool {
    dist_sq_spec(a, b) < (STACK_DISTANCE as int) * (STACK_DISTANCE as int)
}

/// Whether a time gap `dt` (milliseconds) exceeds the stacking window
/// `approach_preempt * stack_leniency`.
pub open spec fn beyond_window(dt: int, preempt: int, leniency: int) -> bool {
    dt * LENIENCY_SCALE > preempt * leniency
}

/// Clamps an unbounded value into the `i64` range.
pub open spec fn sat64(v: int) -> int {
    if v > i64::MAX as int {
        i64::MAX as int
    } else if v < i64::MIN as int {
        i64::MIN as int
    } else {
        v
    }
}

/// Forward-pass scan: starting from base object `base`, walks forward from
/// `n` looking for a chain of objects each within the stacking window and
/// stacking distance of the current chain base, and returns the index where
/// the chain ends. Spinners and gaps in time stop the chain.
pub open spec fn p1_scan(objs: Seq<ObjCore>, preempt: int, leniency: int, base: int, n: int) -> int
    decreases objs.len() - n,
{
    if n < 0 || n >= objs.len() || base < 0 || base >= objs.len() {
        base
    } else if objs[base].kind is Spinner || objs[n].kind is Spinner {
        base
    } else if beyond_window(objs[n].start_time - objs[base].end_time, preempt, leniency) {
        base
    } else if near(objs[base].pos, objs[n].pos) || (objs[base].kind is Slider && near(
        objs[base].end_pos,
        objs[n].pos,
    )) {
        p1_scan(objs, preempt, leniency, n, n + 1)
    } else {
        p1_scan(objs, preempt, leniency, base, n + 1)
    }
}

/// Forward pass: for each `i` from `i` down to `start`, extends the end of
/// the stacked range to the end of the chain rooted at `i`, stopping early
/// once the chain reaches the final object.
pub open spec fn p1_loop(
    objs: Seq<ObjCore>,
    preempt: int,
    leniency: int,
    start: int,
    i: int,
    ext: int,
) -> int
    decreases i - start + 1,
{
    if i < start {
        ext
    } else {
        let sb = p1_scan(objs, preempt, leniency, i, i + 1);
        let ext2 = if sb > ext {
            sb
        } else {
            ext
        };
        if sb > ext && ext2 == objs.len() - 1 {
            ext2
        } else {
            p1_loop(objs, preempt, leniency, start, i - 1, ext2)
        }
    }
}

/// Backward-pass helper: subtracts `offset` from every object strictly
/// between the slider `n2` and the current object `i` (inclusive) whose
/// position matches the slider's end position.
pub open spec fn apply_offset(
    objs: Seq<ObjCore>,
    st: Seq<int>,
    n2: int,
    j: int,
    i: int,
    offset: int,
) -> Seq<int>
    decreases i - j + 1,
{
    if j > i || j < 0 || j >= st.len() || n2 < 0 || n2 >= objs.len() {
        st
    } else {
        let st1 = if near(objs[n2].end_pos, objs[j].pos) {
            st.update(j, sat64(st[j] - offset))
        } else {
            st
        };
        apply_offset(objs, st1, n2, j + 1, i, offset)
    }
}

/// Backward-pass scan for a circle at `i`: walks `n2` down from `i - 1`
/// looking for the nearest predecessor within the stacking window. A slider
/// whose end position matches propagates a negative offset to the objects
/// stacked over its tail and stops the scan; a plain position match assigns
/// `predecessor = current + 1` and chains on from the predecessor.
/// Returns the updated stack values and the extended start index.
pub open spec fn p2_circle(
    objs: Seq<ObjCore>,
    preempt: int,
    leniency: int,
    st: Seq<int>,
    ext_start: int,
    i: int,
    iidx: int,
    n2: int,
) -> (Seq<int>, int)
    decreases n2 + 1,
{
    if n2 < 0 || i < 0 || i >= objs.len() || n2 >= objs.len() || iidx < 0 || iidx >= objs.len() {
        (st, ext_start)
    } else if objs[n2].kind is Spinner {
        p2_circle(objs, preempt, leniency, st, ext_start, i, iidx, n2 - 1)
    } else if beyond_window(objs[iidx].start_time - objs[n2].end_time, preempt, leniency) {
        (st, ext_start)
    } else {
        let st1 = if n2 < ext_start {
            st.update(n2, 0)
        } else {
            st
        };
        let ext1 = if n2 < ext_start {
            n2
        } else {
            ext_start
        };
        if objs[n2].kind is Slider && near(objs[n2].end_pos, objs[iidx].pos) {
            let offset = sat64(st1[iidx] - st1[n2] + 1);
            (apply_offset(objs, st1, n2, n2 + 1, i, offset), ext1)
        } else if near(objs[n2].pos, objs[iidx].pos) {
            p2_circle(
                objs,
                preempt,
                leniency,
                st1.update(n2, sat64(st1[iidx] + 1)),
                ext1,
                i,
                n2,
                n2 - 1,
            )
        } else {
            p2_circle(objs, preempt, leniency, st1, ext1, i, iidx, n2 - 1)
        }
    }
}

/// Backward-pass scan for a slider at `i`: walks `n2` down to `start`,
/// comparing start times and start positions only, chaining like the
/// circle scan but with no slider-tail special case.
pub open spec fn p2_slider(
    objs: Seq<ObjCore>,
    preempt: int,
    leniency: int,
    st: Seq<int>,
    start: int,
    iidx: int,
    n2: int,
) -> Seq<int>
    decreases n2 - start + 1,
{
    if n2 < start || n2 < 0 || n2 >= objs.len() || iidx < 0 || iidx >= objs.len() {
        st
    } else if objs[n2].kind is Spinner {
        p2_slider(objs, preempt, leniency, st, start, iidx, n2 - 1)
    } else if beyond_window(objs[iidx].start_time - objs[n2].start_time, preempt, leniency) {
        st
    } else if near(objs[n2].pos, objs[iidx].pos) {
        p2_slider(objs, preempt, leniency, st.update(n2, sat64(st[iidx] + 1)), start, n2, n2 - 1)
    } else {
        p2_slider(objs, preempt, leniency, st, start, iidx, n2 - 1)
    }
}

/// Backward pass: processes `i` from the extended end down to `start`,
/// skipping objects that already carry a stack value and spinners, and
/// dispatching on the object's shape.
pub open spec fn p2_loop(
    objs: Seq<ObjCore>,
    preempt: int,
    leniency: int,
    start: int,
    st: Seq<int>,
    ext_start: int,
    i: int,
) -> (Seq<int>, int)
    decreases i - start + 1,
{
    if i < start || i < 0 {
        (st, ext_start)
    } else {
        let stepped = if i >= objs.len() || st[i] != 0 || objs[i].kind is Spinner {
            (st, ext_start)
        } else if objs[i].kind is Circle {
            p2_circle(objs, preempt, leniency, st, ext_start, i, i, i - 1)
        } else {
            (p2_slider(objs, preempt, leniency, st, start, i, i - 1), ext_start)
        };
        p2_loop(objs, preempt, leniency, start, stepped.0, stepped.1, i - 1)
    }
}

/// The extended end index the forward pass settles on.
pub open spec fn extended_end(
    objs: Seq<ObjCore>,
    preempt: int,
    leniency: int,
    start: int,
    end: int,
) -> int {
    if end < objs.len() - 1 {
        p1_loop(objs, preempt, leniency, start, end, end)
    } else {
        end
    }
}

/// The backward pass never raises the extended start index: the circle
/// scan only ever lowers it to a visited index.
proof fn lemma_p2_circle_ext(
    objs: Seq<ObjCore>,
    preempt: int,
    leniency: int,
    st: Seq<int>,
    ext0: int,
    i: int,
    iidx: int,
    n2: int,
)
    requires
        0 <= ext0,
    ensures
        0 <= p2_circle(objs, preempt, leniency, st, ext0, i, iidx, n2).1 <= ext0,
    decreases n2 + 1,
{
    if n2 < 0 || i < 0 || i >= objs.len() || n2 >= objs.len() || iidx < 0 || iidx >= objs.len() {
    } else if objs[n2].kind is Spinner {
        lemma_p2_circle_ext(objs, preempt, leniency, st, ext0, i, iidx, n2 - 1);
    } else if beyond_window(objs[iidx].start_time - objs[n2].end_time, preempt, leniency) {
    } else {
        let st1 = if n2 < ext0 {
            st.update(n2, 0)
        } else {
            st
        };
        let ext1 = if n2 < ext0 {
            n2
        } else {
            ext0
        };
        if objs[n2].kind is Slider && near(objs[n2].end_pos, objs[iidx].pos) {
        } else if near(objs[n2].pos, objs[iidx].pos) {
            lemma_p2_circle_ext(
                objs,
                preempt,
                leniency,
                st1.update(n2, sat64(st1[iidx] + 1)),
                ext1,
                i,
                n2,
                n2 - 1,
            );
        } else {
            lemma_p2_circle_ext(objs, preempt, leniency, st1, ext1, i, iidx, n2 - 1);
        }
    }
}

/// The whole backward pass never raises the extended start index.
proof fn lemma_p2_loop_ext(
    objs: Seq<ObjCore>,
    preempt: int,
    leniency: int,
    start: int,
    st: Seq<int>,
    ext0: int,
    i: int,
)
    requires
        0 <= ext0,
    ensures
        0 <= p2_loop(objs, preempt, leniency, start, st, ext0, i).1 <= ext0,
    decreases i - start + 1,
{
    if i < start || i < 0 {
    } else {
        let stepped = if i >= objs.len() || st[i] != 0 || objs[i].kind is Spinner {
            (st, ext0)
        } else if objs[i].kind is Circle {
            p2_circle(objs, preempt, leniency, st, ext0, i, i, i - 1)
        } else {
            (p2_slider(objs, preempt, leniency, st, start, i, i - 1), ext0)
        };
        if !(i >= objs.len() || st[i] != 0 || objs[i].kind is Spinner) && objs[i].kind is Circle {
            lemma_p2_circle_ext(objs, preempt, leniency, st, ext0, i, i, i - 1);
        }
        lemma_p2_loop_ext(objs, preempt, leniency, start, stepped.0, stepped.1, i - 1);
    }
}

/// The first index the backward pass may touch: the extended start index
/// it settles on, at or below `start`.
pub open spec fn stacking_window_start(
    objs: Seq<ObjCore>,
    preempt: int,
    leniency: int,
    start: int,
    end: int,
) -> int {
    p2_loop(
        objs,
        preempt,
        leniency,
        start,
        Seq::new(objs.len(), |k: int| 0),
        start,
        extended_end(objs, preempt, leniency, start, end),
    ).1
}

/// The stack values the engine assigns over the range `[start, end]`,
/// computed from a zero base: a pure function of the objects' shapes,
/// positions and times.
pub open spec fn stacking_model(
    objs: Seq<ObjCore>,
    preempt: int,
    leniency: int,
    start: int,
    end: int,
) -> Seq<int> {
    let st0 = Seq::new(objs.len(), |k: int| 0);
    p2_loop(
        objs,
        preempt,
        leniency,
        start,
        st0,
        start,
        extended_end(objs, preempt, leniency, start, end),
    ).0
}

/// The `int` contents of a vector of stack values.
pub open spec fn int_view(s: Seq<i64>) -> Seq<int> {
    s.map_values(|v: i64| v as int)
}

/// Every object of the sequence is in range.
pub open spec fn objs_in_range(s: Seq<HitObjectExt>) -> bool {
    forall|i: int| 0 <= i < s.len() ==> (#[trigger] s[i]).in_range()
}

/// The stacking-relevant projection of an object sequence.
pub open spec fn cores_of(s: Seq<HitObjectExt>) -> Seq<ObjCore> {
    s.map_values(|h: HitObjectExt| h.core_view())
}

proof fn lemma_int_view_update(s: Seq<i64>, k: int, v: i64)
    requires
        0 <= k < s.len(),
    ensures
        int_view(s.update(k, v)) =~= int_view(s).update(k, v as int),
{
}

/// Whether two anchors are within stacking distance.
fn near_check(a: Point, b: Point) -> (r: bool)
    requires
        a.bounded(COORD_LIMIT as int),
        b.bounded(COORD_LIMIT as int),
    ensures
        r == near(a, b),
{
    let dx = b.x - a.x;
    let dy = b.y - a.y;
    proof {
        assert(0 <= (dx as int) * (dx as int) <= 0x1000_0000 * 0x1000_0000)
            by (nonlinear_arith)
            requires
                -0x1000_0000 <= dx as int <= 0x1000_0000,
        ;
        assert(0 <= (dy as int) * (dy as int) <= 0x1000_0000 * 0x1000_0000)
            by (nonlinear_arith)
            requires
                -0x1000_0000 <= dy as int <= 0x1000_0000,
        ;
    }
    dx * dx + dy * dy < STACK_DISTANCE * STACK_DISTANCE
}

/// Whether a time gap falls outside the stacking window.
fn beyond_check(dt: i64, preempt: i64, leniency: i64) -> (r: bool)
    requires
        -4 * TIME_LIMIT <= dt <= 4 * TIME_LIMIT,
        0 <= preempt <= PREEMPT_LIMIT,
        0 <= leniency <= LENIENCY_SCALE,
    ensures
        r == beyond_window(dt as int, preempt as int, leniency as int),
{
    proof {
        assert(0 <= (preempt as int) * (leniency as int) <= 0x10_0000 * 1000)
            by (nonlinear_arith)
            requires
                0 <= preempt as int <= 0x10_0000,
                0 <= leniency as int <= 1000,
        ;
    }
    dt * LENIENCY_SCALE > preempt * leniency
}

/// `a + 1`, clamped into `i64`.
fn sat_add_one(a: i64) -> (r: i64)
    ensures
        r as int == sat64(a as int + 1),
{
    if a == i64::MAX {
        a
    } else {
        a + 1
    }
}

/// `a - b + 1`, clamped into `i64`.
fn sat_offset(a: i64, b: i64) -> (r: i64)
    ensures
        r as int == sat64(a as int - b as int + 1),
{
    let v = a as i128 - b as i128 + 1;
    if v > i64::MAX as i128 {
        i64::MAX
    } else if v < i64::MIN as i128 {
        i64::MIN
    } else {
        v as i64
    }
}

/// `a - b`, clamped into `i64`.
fn sat_sub(a: i64, b: i64) -> (r: i64)
    ensures
        r as int == sat64(a as int - b as int),
{
    let v = a as i128 - b as i128;
    if v > i64::MAX as i128 {
        i64::MAX
    } else if v < i64::MIN as i128 {
        i64::MIN
    } else {
        v as i64
    }
}

/// One forward chain scan rooted at object `i`; returns the index at which
/// the chain of stacked successors ends.
fn forward_scan(objs: &Vec<HitObjectExt>, preempt: i64, leniency: i64, i: usize) -> (r: usize)
    requires
        objs_in_range(objs@),
        0 <= preempt <= PREEMPT_LIMIT,
        0 <= leniency <= LENIENCY_SCALE,
        i < objs@.len(),
    ensures
        i <= r < objs@.len(),
        r as int == p1_scan(cores_of(objs@), preempt as int, leniency as int, i as int, i as int + 1),
{
    let ghost gobjs = cores_of(objs@);
    let ghost target = p1_scan(gobjs, preempt as int, leniency as int, i as int, i as int + 1);
    let n_objs = objs.len();
    let mut stack_base_idx = i;
    let mut n2 = i + 1;
    while n2 < n_objs
        invariant_except_break
            objs_in_range(objs@),
            0 <= preempt <= PREEMPT_LIMIT,
            0 <= leniency <= LENIENCY_SCALE,
            n_objs == objs@.len(),
            gobjs == cores_of(objs@),
            i <= stack_base_idx < n_objs,
            i + 1 <= n2 <= n_objs,
            target == p1_scan(gobjs, preempt as int, leniency as int, stack_base_idx as int, n2 as int),
        ensures
            i <= stack_base_idx < n_objs,
            target == stack_base_idx as int,
        decreases n_objs - n2,
    {
        let base = objs[stack_base_idx];
        let obj_n = objs[n2];
        proof {
            assert(gobjs[stack_base_idx as int] == objs@[stack_base_idx as int].core_view());
            assert(gobjs[n2 as int] == objs@[n2 as int].core_view());
        }
        if base.is_spinner() || obj_n.is_spinner() {
            break;
        }
        let dt = obj_n.start_time - base.end_time;
        if beyond_check(dt, preempt, leniency) {
            break;
        }
        if near_check(base.pos, obj_n.pos) || (base.is_slider() && near_check(
            base.end_pos,
            obj_n.pos,
        )) {
            stack_base_idx = n2;
        }
        n2 += 1;
    }
    stack_base_idx
}

/// The forward pass: extends `end_idx` to cover every object the range is
/// stacked under, stopping early once the last object is reached.
fn forward_pass(
    objs: &Vec<HitObjectExt>,
    preempt: i64,
    leniency: i64,
    start_idx: usize,
    end_idx: usize,
) -> (r: usize)
    requires
        objs_in_range(objs@),
        0 <= preempt <= PREEMPT_LIMIT,
        0 <= leniency <= LENIENCY_SCALE,
        start_idx <= end_idx < objs@.len(),
    ensures
        end_idx <= r < objs@.len(),
        r as int == extended_end(
            cores_of(objs@),
            preempt as int,
            leniency as int,
            start_idx as int,
            end_idx as int,
        ),
{
    let ghost gobjs = cores_of(objs@);
    let n_objs = objs.len();
    let mut extended_end_idx = end_idx;
    if end_idx < n_objs - 1 {
        let ghost target = p1_loop(
            gobjs,
            preempt as int,
            leniency as int,
            start_idx as int,
            end_idx as int,
            end_idx as int,
        );
        let mut i = end_idx + 1;
        while i > start_idx
            invariant_except_break
                objs_in_range(objs@),
                0 <= preempt <= PREEMPT_LIMIT,
                0 <= leniency <= LENIENCY_SCALE,
                n_objs == objs@.len(),
                gobjs == cores_of(objs@),
                start_idx <= i <= end_idx + 1,
                end_idx <= extended_end_idx < n_objs,
                target == p1_loop(
                    gobjs,
                    preempt as int,
                    leniency as int,
                    start_idx as int,
                    i as int - 1,
                    extended_end_idx as int,
                ),
            ensures
                end_idx <= extended_end_idx < n_objs,
                target == extended_end_idx as int,
            decreases i,
        {
            i -= 1;
            let sb = forward_scan(objs, preempt, leniency, i);
            if sb > extended_end_idx {
                extended_end_idx = sb;
                if extended_end_idx == n_objs - 1 {
                    break;
                }
            }
        }
    }
    extended_end_idx
}

/// The backward scan for a circle at `i`: finds the nearest qualifying
/// predecessor, handling the slider-tail special case, and returns the
/// updated stack values and extended start index.
fn circle_scan(
    objs: &Vec<HitObjectExt>,
    preempt: i64,
    leniency: i64,
    st0: Vec<i64>,
    ext0: usize,
    i: usize,
) -> (r: (Vec<i64>, usize))
    requires
        objs_in_range(objs@),
        0 <= preempt <= PREEMPT_LIMIT,
        0 <= leniency <= LENIENCY_SCALE,
        i < objs@.len(),
        st0@.len() == objs@.len(),
        ext0 <= objs@.len(),
    ensures
        r.0@.len() == objs@.len(),
        r.1 <= ext0,
        ({
            let m = p2_circle(
                cores_of(objs@),
                preempt as int,
                leniency as int,
                int_view(st0@),
                ext0 as int,
                i as int,
                i as int,
                i as int - 1,
            );
            int_view(r.0@) == m.0 && r.1 as int == m.1
        }),
{
    let ghost gobjs = cores_of(objs@);
    let ghost target = p2_circle(
        gobjs,
        preempt as int,
        leniency as int,
        int_view(st0@),
        ext0 as int,
        i as int,
        i as int,
        i as int - 1,
    );
    let n_objs = objs.len();
    let mut st = st0;
    let mut ext_start = ext0;
    let mut iidx = i;
    let mut n2 = i;
    while n2 > 0
        invariant_except_break
            objs_in_range(objs@),
            0 <= preempt <= PREEMPT_LIMIT,
            0 <= leniency <= LENIENCY_SCALE,
            gobjs == cores_of(objs@),
            i < objs@.len(),
            n_objs == objs@.len(),
            n2 <= i,
            iidx < objs@.len(),
            st@.len() == objs@.len(),
            ext_start <= ext0,
            target == p2_circle(
                gobjs,
                preempt as int,
                leniency as int,
                int_view(st@),
                ext_start as int,
                i as int,
                iidx as int,
                n2 as int - 1,
            ),
        ensures
            st@.len() == objs@.len(),
            ext_start <= ext0,
            target.0 == int_view(st@),
            target.1 == ext_start as int,
        decreases n2,
    {
        n2 -= 1;
        let obj_n = objs[n2];
        proof {
            assert(gobjs[n2 as int] == objs@[n2 as int].core_view());
            assert(gobjs[iidx as int] == objs@[iidx as int].core_view());
        }
        if obj_n.is_spinner() {
            continue;
        }
        let dt = objs[iidx].start_time - obj_n.end_time;
        if beyond_check(dt, preempt, leniency) {
            break;
        }
        if n2 < ext_start {
            proof {
                lemma_int_view_update(st@, n2 as int, 0i64);
            }
            st.set(n2, 0);
            ext_start = n2;
        }
        if obj_n.is_slider() && near_check(obj_n.end_pos, objs[iidx].pos) {
            let offset = sat_offset(st[iidx], st[n2]);
            let ghost atarget = apply_offset(
                gobjs,
                int_view(st@),
                n2 as int,
                n2 as int + 1,
                i as int,
                offset as int,
            );
            let mut j = n2 + 1;
            while j <= i
                invariant
                    objs_in_range(objs@),
                    gobjs == cores_of(objs@),
                    i < objs@.len(),
                    objs@.len() <= usize::MAX as int,
                    n2 < j <= i + 1,
                    n2 < objs@.len(),
                    st@.len() == objs@.len(),
                    obj_n == objs@[n2 as int],
                    atarget == apply_offset(
                        gobjs,
                        int_view(st@),
                        n2 as int,
                        j as int,
                        i as int,
                        offset as int,
                    ),
                decreases i + 1 - j,
            {
                proof {
                    assert(gobjs[j as int] == objs@[j as int].core_view());
                }
                if near_check(obj_n.end_pos, objs[j].pos) {
                    let v = sat_sub(st[j], offset);
                    proof {
                        lemma_int_view_update(st@, j as int, v);
                    }
                    st.set(j, v);
                }
                j += 1;
            }
            break;
        }
        if near_check(obj_n.pos, objs[iidx].pos) {
            let v = sat_add_one(st[iidx]);
            proof {
                lemma_int_view_update(st@, n2 as int, v);
            }
            st.set(n2, v);
            iidx = n2;
        }
    }
    (st, ext_start)
}

/// The backward scan for a slider at `i`: compares start times and start
/// positions only.
fn slider_scan(
    objs: &Vec<HitObjectExt>,
    preempt: i64,
    leniency: i64,
    st0: Vec<i64>,
    start_idx: usize,
    i: usize,
) -> (r: Vec<i64>)
    requires
        objs_in_range(objs@),
        0 <= preempt <= PREEMPT_LIMIT,
        0 <= leniency <= LENIENCY_SCALE,
        start_idx <= i < objs@.len(),
        st0@.len() == objs@.len(),
    ensures
        r@.len() == objs@.len(),
        int_view(r@) == p2_slider(
            cores_of(objs@),
            preempt as int,
            leniency as int,
            int_view(st0@),
            start_idx as int,
            i as int,
            i as int - 1,
        ),
{
    let ghost gobjs = cores_of(objs@);
    let ghost target = p2_slider(
        gobjs,
        preempt as int,
        leniency as int,
        int_view(st0@),
        start_idx as int,
        i as int,
        i as int - 1,
    );
    let mut st = st0;
    let mut iidx = i;
    let mut n2 = i;
    while n2 > start_idx
        invariant_except_break
            objs_in_range(objs@),
            0 <= preempt <= PREEMPT_LIMIT,
            0 <= leniency <= LENIENCY_SCALE,
            gobjs == cores_of(objs@),
            start_idx <= n2 <= i,
            i < objs@.len(),
            iidx < objs@.len(),
            st@.len() == objs@.len(),
            target == p2_slider(
                gobjs,
                preempt as int,
                leniency as int,
                int_view(st@),
                start_idx as int,
                iidx as int,
                n2 as int - 1,
            ),
        ensures
            st@.len() == objs@.len(),
            target == int_view(st@),
        decreases n2,
    {
        n2 -= 1;
        let obj_n = objs[n2];
        proof {
            assert(gobjs[n2 as int] == objs@[n2 as int].core_view());
            assert(gobjs[iidx as int] == objs@[iidx as int].core_view());
        }
        if obj_n.is_spinner() {
            continue;
        }
        let dt = objs[iidx].start_time - obj_n.start_time;
        if beyond_check(dt, preempt, leniency) {
            break;
        }
        if near_check(obj_n.pos, objs[iidx].pos) {
            let v = sat_add_one(st[iidx]);
            proof {
                lemma_int_view_update(st@, n2 as int, v);
            }
            st.set(n2, v);
            iidx = n2;
        }
    }
    st
}

/// The number of new-combo markers among the first `k` objects.
pub open spec fn combo_resets(s: Seq<HitObjectExt>, k: int) -> int
    decreases k,
{
    if k <= 0 {
        0
    } else {
        combo_resets(s, k - 1) + if s[k - 1].new_combo {
            1int
        } else {
            0int
        }
    }
}

/// The index of the last new-combo marker at or before `k`, or `-1`.
pub open spec fn last_reset(s: Seq<HitObjectExt>, k: int) -> int
    decreases k + 1,
{
    if k < 0 {
        -1
    } else if s[k].new_combo {
        k
    } else {
        last_reset(s, k - 1)
    }
}

/// The combo number of object `k`: counting restarts at 1 on each
/// new-combo marker, and the very first object counts from 1.
pub open spec fn combo_number(s: Seq<HitObjectExt>, k: int) -> int {
    if last_reset(s, k) >= 0 {
        k - last_reset(s, k) + 1
    } else {
        k + 1
    }
}

proof fn lemma_last_reset_bounds(s: Seq<HitObjectExt>, k: int)
    ensures
        -1 <= last_reset(s, k),
        k >= 0 ==> last_reset(s, k) <= k,
    decreases k + 1,
{
    if k >= 0 && !s[k].new_combo {
        lemma_last_reset_bounds(s, k - 1);
    }
}

impl BeatmapExt {
    /// Assigns combo numbers and combo colour indices: every new-combo
    /// marker restarts the count at 1 and advances the colour by one,
    /// cycling through `color_count` colours.
    pub fn compute_colors(&mut self, color_count: usize)
        requires
            color_count >= 1,
            old(self).hit_objects@.len() < usize::MAX,
        ensures
            final(self).hit_objects@.len() == old(self).hit_objects@.len(),
            final(self).stack_leniency == old(self).stack_leniency,
            final(self).approach_preempt == old(self).approach_preempt,
            forall|k: int|
                0 <= k < old(self).hit_objects@.len() ==> (#[trigger] final(self).hit_objects@[k]) == (HitObjectExt {
                    number: combo_number(old(self).hit_objects@, k) as usize,
                    color_idx: (combo_resets(old(self).hit_objects@, k + 1) % (
                    color_count as int)) as usize,
                    ..old(self).hit_objects@[k]
                }),
    {
        let n_objs = self.hit_objects.len();
        let mut color_idx: usize = 0;
        let mut number: usize = 1;
        let mut k: usize = 0;
        proof {
            assert(combo_resets(old(self).hit_objects@, 0) == 0);
            vstd::arithmetic::div_mod::lemma_small_mod(0, color_count as nat);
        }
        while k < n_objs
            invariant
                color_count >= 1,
                k <= n_objs,
                n_objs == self.hit_objects@.len(),
                n_objs == old(self).hit_objects@.len(),
                n_objs < usize::MAX,
                self.stack_leniency == old(self).stack_leniency,
                self.approach_preempt == old(self).approach_preempt,
                color_idx as int == combo_resets(old(self).hit_objects@, k as int) % (
                color_count as int),
                color_idx < color_count,
                number as int == (if k == 0 {
                    1int
                } else {
                    combo_number(old(self).hit_objects@, k as int - 1) + 1
                }),
                number <= k + 1,
                forall|q: int|
                    k <= q < n_objs ==> (#[trigger] self.hit_objects@[q]) == old(self).hit_objects@[q],
                forall|q: int|
                    0 <= q < k ==> (#[trigger] self.hit_objects@[q]) == (HitObjectExt {
                        number: combo_number(old(self).hit_objects@, q) as usize,
                        color_idx: (combo_resets(old(self).hit_objects@, q + 1) % (
                        color_count as int)) as usize,
                        ..old(self).hit_objects@[q]
                    }),
            decreases n_objs - k,
        {
            let mut h = self.hit_objects[k];
            if h.new_combo {
                number = 1;
                color_idx = (color_idx + 1) % color_count;
                proof {
                    vstd::arithmetic::div_mod::lemma_add_mod_noop_right(
                        1,
                        combo_resets(old(self).hit_objects@, k as int),
                        color_count as int,
                    );
                }
            }
            h.number = number;
            h.color_idx = color_idx;
            self.hit_objects.set(k, h);
            proof {
                let s = old(self).hit_objects@;
                lemma_last_reset_bounds(s, k as int);
                lemma_last_reset_bounds(s, k as int - 1);
                assert(combo_resets(s, k as int + 1) == combo_resets(s, k as int) + (if s[
                    k as int
                ].new_combo {
                    1int
                } else {
                    0int
                }));
                assert(last_reset(s, k as int) == (if s[k as int].new_combo {
                    k as int
                } else {
                    last_reset(s, k as int - 1)
                }));
            }
            number = number + 1;
            k = k + 1;
        }
    }

    /// The stacking engine proper, over the index range `[start_idx,
    /// end_idx]`: a forward pass extends the range to the objects it is
    /// stacked under, then a backward pass assigns each object's stack
    /// offset, freshly computed from positions and times alone. Only the
    /// window the passes actually reach — from the extended start index
    /// down to the extended end — is written; every object outside it
    /// keeps its values.
    pub fn compute_stacking_inner(&mut self, start_idx: usize, end_idx: usize)
        requires
            old(self).wf(),
            0 <= old(self).stack_leniency,
            start_idx <= end_idx < old(self).hit_objects@.len(),
        ensures
            final(self).hit_objects@.len() == old(self).hit_objects@.len(),
            final(self).stack_leniency == old(self).stack_leniency,
            final(self).approach_preempt == old(self).approach_preempt,
            ({
                let objs = old(self).cores();
                let pre = old(self).approach_preempt as int;
                let led = old(self).stack_leniency as int;
                let lo = stacking_window_start(objs, pre, led, start_idx as int, end_idx as int);
                let hi = extended_end(objs, pre, led, start_idx as int, end_idx as int);
                let m = stacking_model(objs, pre, led, start_idx as int, end_idx as int);
                &&& forall|k: int|
                    lo <= k <= hi ==> (#[trigger] final(self).hit_objects@[k]) == (HitObjectExt {
                        stacking: m[k] as i64,
                        ..old(self).hit_objects@[k]
                    })
                &&& forall|k: int|
                    0 <= k < old(self).hit_objects@.len() && !(lo <= k <= hi) ==> (
                    #[trigger] final(self).hit_objects@[k]) == old(self).hit_objects@[k]
            }),
    {
        let n_objs = self.hit_objects.len();
        let preempt = self.approach_preempt;
        let leniency = self.stack_leniency;
        let ghost gobjs = self.cores();

        let ext_end = forward_pass(&self.hit_objects, preempt, leniency, start_idx, end_idx);

        let mut st: Vec<i64> = Vec::new();
        let mut z: usize = 0;
        while z < n_objs
            invariant
                st@.len() == z,
                z <= n_objs,
                forall|q: int| 0 <= q < z ==> st@[q] == 0i64,
            decreases n_objs - z,
        {
            st.push(0);
            z = z + 1;
        }
        proof {
            assert(int_view(st@) =~= Seq::new(gobjs.len(), |q: int| 0));
        }
        let ghost target = p2_loop(
            gobjs,
            preempt as int,
            leniency as int,
            start_idx as int,
            Seq::new(gobjs.len(), |q: int| 0),
            start_idx as int,
            ext_end as int,
        );

        let mut extended_start_idx = start_idx;
        let mut i = ext_end + 1;
        while i > start_idx
            invariant
                objs_in_range(self.hit_objects@),
                0 <= preempt <= PREEMPT_LIMIT,
                0 <= leniency <= LENIENCY_SCALE,
                self.hit_objects@ == old(self).hit_objects@,
                self.stack_leniency == old(self).stack_leniency,
                self.approach_preempt == old(self).approach_preempt,
                gobjs == cores_of(self.hit_objects@),
                n_objs == self.hit_objects@.len(),
                start_idx <= i <= ext_end + 1,
                ext_end < n_objs,
                extended_start_idx <= start_idx,
                st@.len() == n_objs,
                target == p2_loop(
                    gobjs,
                    preempt as int,
                    leniency as int,
                    start_idx as int,
                    int_view(st@),
                    extended_start_idx as int,
                    i as int - 1,
                ),
            decreases i,
        {
            i -= 1;
            let obj_i = self.hit_objects[i];
            proof {
                assert(gobjs[i as int] == self.hit_objects@[i as int].core_view());
            }
            if st[i] != 0 || obj_i.is_spinner() {
                continue;
            }
            if obj_i.is_circle() {
                let r = circle_scan(&self.hit_objects, preempt, leniency, st, extended_start_idx, i);
                st = r.0;
                extended_start_idx = r.1;
            } else {
                st = slider_scan(&self.hit_objects, preempt, leniency, st, start_idx, i);
            }
        }

        proof {
            assert(target == (int_view(st@), extended_start_idx as int));
        }
        let mut k: usize = extended_start_idx;
        while k <= ext_end
            invariant
                extended_start_idx <= k <= ext_end + 1,
                ext_end < n_objs,
                n_objs == self.hit_objects@.len(),
                n_objs == old(self).hit_objects@.len(),
                st@.len() == n_objs,
                self.stack_leniency == old(self).stack_leniency,
                self.approach_preempt == old(self).approach_preempt,
                forall|q: int|
                    (0 <= q < extended_start_idx || k <= q < n_objs) ==> (
                    #[trigger] self.hit_objects@[q]) == old(self).hit_objects@[q],
                forall|q: int|
                    extended_start_idx <= q < k ==> (#[trigger] self.hit_objects@[q]) == (
                    HitObjectExt { stacking: st@[q], ..old(self).hit_objects@[q] }),
            decreases ext_end + 1 - k,
        {
            let mut h = self.hit_objects[k];
            h.stacking = st[k];
            self.hit_objects.set(k, h);
            k = k + 1;
        }
        proof {
            assert(stacking_model(
                gobjs,
                preempt as int,
                leniency as int,
                start_idx as int,
                end_idx as int,
            ) == target.0);
            assert(stacking_window_start(
                gobjs,
                preempt as int,
                leniency as int,
                start_idx as int,
                end_idx as int,
            ) == extended_start_idx as int);
        }
    }

    /// Computes stacking for the whole beatmap. Stacking is disabled
    /// entirely when the stack leniency is zero or below, and an empty
    /// beatmap is left untouched.
    pub fn compute_stacking(&mut self)
        requires
            old(self).wf(),
        ensures
            final(self).hit_objects@.len() == old(self).hit_objects@.len(),
            final(self).stack_leniency == old(self).stack_leniency,
            final(self).approach_preempt == old(self).approach_preempt,
            old(self).stack_leniency <= 0 || old(self).hit_objects@.len() == 0 ==> *final(self)
                == *old(self),
            old(self).stack_leniency > 0 && old(self).hit_objects@.len() > 0 ==> forall|k: int|
                0 <= k < old(self).hit_objects@.len() ==> (#[trigger] final(self).hit_objects@[k]) == (HitObjectExt {
                    stacking: (stacking_model(
                        old(self).cores(),
                        old(self).approach_preempt as int,
                        old(self).stack_leniency as int,
                        0,
                        old(self).hit_objects@.len() - 1,
                    )[k]) as i64,
                    ..old(self).hit_objects@[k]
                }),
    {
        if self.stack_leniency > 0 && self.hit_objects.len() > 0 {
            let end = self.hit_objects.len() - 1;
            let ghost objs = self.cores();
            let ghost pre = self.approach_preempt as int;
            let ghost led = self.stack_leniency as int;
            self.compute_stacking_inner(0, end);
            proof {
                // over the whole beatmap the write window covers every index
                lemma_p2_loop_ext(
                    objs,
                    pre,
                    led,
                    0,
                    Seq::new(objs.len(), |k: int| 0),
                    0,
                    extended_end(objs, pre, led, 0, end as int),
                );
                assert(stacking_window_start(objs, pre, led, 0, end as int) == 0);
                assert(extended_end(objs, pre, led, 0, end as int) == end as int);
            }
        }
    }
}

/// Law: the stacking engine is idempotent. It computes offsets from the
/// objects' shapes, positions and times alone — never from the
/// previously assigned offsets or other annotations — so a second run
/// over the beatmap left by a first run assigns exactly the same values
/// again.
pub proof fn lemma_stacking_idempotent(
    before: Seq<HitObjectExt>,
    after: Seq<HitObjectExt>,
    preempt: int,
    leniency: int,
    start: int,
    end: int,
)
    requires
        before.len() == after.len(),
        forall|k: int|
            0 <= k < before.len() ==> (#[trigger] after[k]).core_view() == before[k].core_view(),
    ensures
        stacking_model(cores_of(after), preempt, leniency, start, end) == stacking_model(
            cores_of(before),
            preempt,
            leniency,
            start,
            end,
        ),
{
    assert(cores_of(after) =~= cores_of(before));
}

} // verus!
