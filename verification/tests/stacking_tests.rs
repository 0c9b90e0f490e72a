use editor_core::{BeatmapExt, HitObjectExt, ObjectKind, Point};

fn pt(x: i64, y: i64) -> Point {
    Point { x, y }
}

const PX: i64 = 256;

fn circle(x: i64, y: i64, t: i64) -> HitObjectExt {
    HitObjectExt::new(ObjectKind::Circle, pt(x, y), pt(x, y), t, t, false)
}

fn slider(x: i64, y: i64, ex: i64, ey: i64, t: i64, end: i64) -> HitObjectExt {
    HitObjectExt::new(ObjectKind::Slider, pt(x, y), pt(ex, ey), t, end, false)
}

fn stack_values(b: &BeatmapExt) -> Vec<i64> {
    b.hit_objects.iter().map(|h| h.stacking).collect()
}

#[test]
fn three_coincident_circles_stack_two_one_zero() {
    let objs = vec![
        circle(100 * PX, 100 * PX, 0),
        circle(100 * PX, 100 * PX, 50),
        circle(100 * PX, 100 * PX, 100),
    ];
    let mut b = BeatmapExt::new(objs, 1000, 1000);
    b.compute_stacking();
    assert_eq!(stack_values(&b), vec![2, 1, 0]);
}

#[test]
fn circles_too_far_apart_in_time_do_not_stack() {
    let objs = vec![
        circle(100 * PX, 100 * PX, 0),
        circle(100 * PX, 100 * PX, 5000),
    ];
    let mut b = BeatmapExt::new(objs, 1000, 1000);
    b.compute_stacking();
    assert_eq!(stack_values(&b), vec![0, 0]);
}

#[test]
fn circles_too_far_apart_in_space_do_not_stack() {
    let objs = vec![
        circle(100 * PX, 100 * PX, 0),
        circle(200 * PX, 100 * PX, 50),
    ];
    let mut b = BeatmapExt::new(objs, 1000, 1000);
    b.compute_stacking();
    assert_eq!(stack_values(&b), vec![0, 0]);
}

#[test]
fn circles_within_three_pixels_stack() {
    // two pixels apart: inside the three-pixel stacking distance
    let objs = vec![
        circle(100 * PX, 100 * PX, 0),
        circle(102 * PX, 100 * PX, 50),
    ];
    let mut b = BeatmapExt::new(objs, 1000, 1000);
    b.compute_stacking();
    assert_eq!(stack_values(&b), vec![1, 0]);
}

#[test]
fn circle_on_slider_tail_gets_negative_offset() {
    let objs = vec![
        slider(0, 0, 100 * PX, 0, 0, 100),
        circle(100 * PX, 0, 150),
    ];
    let mut b = BeatmapExt::new(objs, 1000, 1000);
    b.compute_stacking();
    assert_eq!(stack_values(&b), vec![0, -1]);
}

#[test]
fn sliders_chain_on_their_predecessors_start_position() {
    // two sliders starting on the same spot, tails elsewhere: the earlier
    // one stacks under the later one
    let objs = vec![
        slider(100 * PX, 0, 150 * PX, 0, 0, 100),
        slider(100 * PX, 0, 50 * PX, 50 * PX, 200, 300),
    ];
    let mut b = BeatmapExt::new(objs, 1000, 1000);
    b.compute_stacking();
    assert_eq!(stack_values(&b), vec![1, 0]);
}

#[test]
fn sliders_do_not_chain_on_a_predecessors_tail() {
    // the predecessor's tail touches the later slider's head, but slider
    // stacking compares start positions only
    let objs = vec![
        slider(50 * PX, 50 * PX, 100 * PX, 0, 0, 100),
        slider(100 * PX, 0, 150 * PX, 0, 200, 300),
    ];
    let mut b = BeatmapExt::new(objs, 1000, 1000);
    b.compute_stacking();
    assert_eq!(stack_values(&b), vec![0, 0]);
}

#[test]
fn spinners_break_the_chain() {
    let objs = vec![
        circle(100 * PX, 100 * PX, 0),
        HitObjectExt::new(
            ObjectKind::Spinner,
            pt(100 * PX, 100 * PX),
            pt(100 * PX, 100 * PX),
            50,
            90,
            false,
        ),
        circle(100 * PX, 100 * PX, 100),
    ];
    let mut b = BeatmapExt::new(objs, 1000, 1000);
    b.compute_stacking();
    // the spinner neither stacks nor lets the two circles see each other
    // across it in the backward scan: the circles still pair up
    assert_eq!(b.hit_objects[1].stacking, 0);
}

#[test]
fn interwound_stacks_resolve_independently() {
    // two alternating columns: each pairs with its own partner
    let objs = vec![
        circle(100 * PX, 100 * PX, 0),
        circle(200 * PX, 200 * PX, 50),
        circle(100 * PX, 100 * PX, 100),
        circle(200 * PX, 200 * PX, 150),
    ];
    let mut b = BeatmapExt::new(objs, 1000, 1000);
    b.compute_stacking();
    assert_eq!(stack_values(&b), vec![1, 1, 0, 0]);
}

#[test]
fn stacking_twice_gives_identical_values() {
    let objs = vec![
        circle(100 * PX, 100 * PX, 0),
        circle(100 * PX, 100 * PX, 50),
        slider(100 * PX, 100 * PX, 160 * PX, 0, 100, 200),
        circle(160 * PX, 0, 250),
    ];
    let mut b = BeatmapExt::new(objs, 700, 900);
    b.compute_stacking();
    let first = stack_values(&b);
    b.compute_stacking();
    assert_eq!(stack_values(&b), first);
}

#[test]
fn sub_range_recompute_leaves_objects_outside_the_window_alone() {
    let mut objs = vec![
        circle(10 * PX, 10 * PX, 0),
        circle(50 * PX, 50 * PX, 10_000),
        circle(100 * PX, 100 * PX, 20_000),
        circle(100 * PX, 100 * PX, 20_050),
        circle(200 * PX, 200 * PX, 40_000),
    ];
    objs[0].stacking = 9;
    objs[1].stacking = 8;
    objs[4].stacking = 7;
    let mut b = BeatmapExt::new(objs, 1000, 1000);
    b.compute_stacking_inner(2, 3);
    assert_eq!(stack_values(&b), vec![9, 8, 1, 0, 7]);
}

#[test]
fn zero_leniency_changes_nothing() {
    let mut objs = vec![
        circle(100 * PX, 100 * PX, 0),
        circle(100 * PX, 100 * PX, 50),
    ];
    objs[0].stacking = 7;
    objs[1].stacking = -3;
    let mut b = BeatmapExt::new(objs, 0, 1000);
    b.compute_stacking();
    assert_eq!(stack_values(&b), vec![7, -3]);
}

#[test]
fn empty_beatmap_is_left_untouched() {
    let mut b = BeatmapExt::new(Vec::new(), 1000, 1000);
    b.compute_stacking();
    assert_eq!(b.hit_objects.len(), 0);
}

#[test]
fn compute_colors_assigns_numbers_and_colour_indices() {
    let mut objs = vec![
        circle(0, 0, 0),
        circle(0, 0, 100),
        circle(0, 0, 200),
        circle(0, 0, 300),
        circle(0, 0, 400),
    ];
    objs[0].new_combo = true;
    objs[3].new_combo = true;
    let mut b = BeatmapExt::new(objs, 700, 900);
    b.compute_colors(4);
    let numbers: Vec<usize> = b.hit_objects.iter().map(|h| h.number).collect();
    let colors: Vec<usize> = b.hit_objects.iter().map(|h| h.color_idx).collect();
    assert_eq!(numbers, vec![1, 2, 3, 1, 2]);
    assert_eq!(colors, vec![1, 1, 1, 2, 2]);
}

#[test]
fn compute_colors_without_any_combo_marker_counts_from_one() {
    let objs = vec![circle(0, 0, 0), circle(0, 0, 100), circle(0, 0, 200)];
    let mut b = BeatmapExt::new(objs, 700, 900);
    b.compute_colors(2);
    let numbers: Vec<usize> = b.hit_objects.iter().map(|h| h.number).collect();
    let colors: Vec<usize> = b.hit_objects.iter().map(|h| h.color_idx).collect();
    assert_eq!(numbers, vec![1, 2, 3]);
    assert_eq!(colors, vec![0, 0, 0]);
}

#[test]
fn colour_index_wraps_around_the_palette() {
    let mut objs: Vec<HitObjectExt> = (0..5).map(|i| circle(0, 0, 100 * i)).collect();
    for o in objs.iter_mut() {
        o.new_combo = true;
    }
    let mut b = BeatmapExt::new(objs, 700, 900);
    b.compute_colors(2);
    let colors: Vec<usize> = b.hit_objects.iter().map(|h| h.color_idx).collect();
    assert_eq!(colors, vec![1, 0, 1, 0, 1]);
}
