use editor_core::editor::upgrade_slider_type;
use editor_core::framework::{handle_event, real_main, LoopDirective, ShellEvent};
use editor_core::utils::fuck_you_windows;
use editor_core::{CurveKind, Point, SliderCache};

fn pt(x: i64, y: i64) -> Point {
    Point { x, y }
}

const PX: i64 = 256;

#[test]
fn cache_is_empty_until_something_is_inserted() {
    let cache = SliderCache::new();
    assert!(!cache.contains_key(&vec![pt(0, 0), pt(PX, 0)]));
    assert!(cache.get(&vec![pt(0, 0), pt(PX, 0)]).is_none());
}

#[test]
fn cache_answers_repeated_builds_with_the_same_spline() {
    let mut cache = SliderCache::new();
    let cp = vec![pt(0, 0), pt(3 * PX, 4 * PX)];
    let first = cache
        .get_or_build(CurveKind::Linear, &cp, 10 * PX)
        .unwrap()
        .spline_points
        .clone();
    assert!(cache.contains_key(&cp));
    let second = cache.get_or_build(CurveKind::Linear, &cp, 10 * PX).unwrap();
    assert_eq!(second.spline_points, first);
    assert_eq!(second.spline_points, vec![pt(0, 0), pt(6 * PX, 8 * PX)]);
}

#[test]
fn cache_keys_are_compared_by_value() {
    let mut cache = SliderCache::new();
    let cp = vec![pt(0, 0), pt(3 * PX, 4 * PX)];
    cache
        .get_or_build(CurveKind::Linear, &cp, 10 * PX)
        .unwrap();
    // an equal vector allocated elsewhere hits the same entry
    let same = vec![pt(0, 0), pt(3 * PX, 4 * PX)];
    assert!(cache.contains_key(&same));
    // a different sequence misses
    let other = vec![pt(0, 0), pt(3 * PX, 5 * PX)];
    assert!(!cache.contains_key(&other));
}

#[test]
fn degenerate_builds_are_not_cached() {
    let mut cache = SliderCache::new();
    let cp = vec![pt(PX, PX), pt(PX, PX)];
    assert!(cache.get_or_build(CurveKind::Linear, &cp, PX).is_err());
    assert!(!cache.contains_key(&cp));
}

#[test]
fn fuck_you_windows_finds_entries_case_insensitively() {
    let entries = vec![
        String::from("Skin.INI"),
        String::from("Audio.MP3"),
        String::from("bg.png"),
    ];
    assert_eq!(fuck_you_windows(&entries, "skin.ini"), Some(0));
    assert_eq!(fuck_you_windows(&entries, "AUDIO.mp3"), Some(1));
    assert_eq!(fuck_you_windows(&entries, "BG.PNG"), Some(2));
    assert_eq!(fuck_you_windows(&entries, "missing.wav"), None);
}

#[test]
fn fuck_you_windows_returns_the_first_match() {
    let entries = vec![String::from("A.txt"), String::from("a.TXT")];
    assert_eq!(fuck_you_windows(&entries, "a.txt"), Some(0));
}

#[test]
fn fuck_you_windows_distinguishes_different_names() {
    let entries = vec![String::from("map.osu")];
    assert_eq!(fuck_you_windows(&entries, "map.osu2"), None);
    assert_eq!(fuck_you_windows(&entries, "map.os"), None);
}

#[test]
fn shell_exits_on_close_and_waits_otherwise() {
    assert!(matches!(
        handle_event(ShellEvent::CloseRequested),
        LoopDirective::Exit
    ));
    assert!(matches!(handle_event(ShellEvent::Other), LoopDirective::Wait));
}

#[test]
fn shell_run_consumes_events_until_the_first_close() {
    let events = vec![
        ShellEvent::Other,
        ShellEvent::Other,
        ShellEvent::CloseRequested,
        ShellEvent::Other,
    ];
    assert_eq!(real_main(&events), 3);
    assert_eq!(real_main(&Vec::new()), 0);
    assert_eq!(real_main(&vec![ShellEvent::Other]), 1);
    assert_eq!(real_main(&vec![ShellEvent::CloseRequested]), 1);
    editor_core::framework::android_main(&events);
}

#[test]
fn slider_shape_is_promoted_as_anchors_are_added() {
    assert_eq!(upgrade_slider_type(CurveKind::Linear, 3), CurveKind::Perfect);
    assert_eq!(upgrade_slider_type(CurveKind::Perfect, 4), CurveKind::Bezier);
    assert_eq!(upgrade_slider_type(CurveKind::Bezier, 5), CurveKind::Bezier);
    assert_eq!(upgrade_slider_type(CurveKind::Linear, 2), CurveKind::Linear);
    assert_eq!(upgrade_slider_type(CurveKind::Perfect, 3), CurveKind::Perfect);
}
