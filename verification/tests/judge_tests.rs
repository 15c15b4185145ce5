use taiko::components::HitObject;
use taiko::resources::BeatMap;
use taiko::utils::{check_hit, get_key_press_type, osu_to_real_time, value_near};

fn map_with_window(maxhitoffset: i64) -> BeatMap {
    BeatMap { name: Vec::new(), songpath: Vec::new(), objects: Vec::new(), maxhitoffset }
}

#[test]
fn key_press_type_classifies() {
    assert_eq!(get_key_press_type(true, false, false, false), (true, false));
    assert_eq!(get_key_press_type(false, true, false, false), (true, false));
    assert_eq!(get_key_press_type(true, true, false, false), (true, true));
    assert_eq!(get_key_press_type(false, false, true, false), (false, false));
    assert_eq!(get_key_press_type(false, false, true, true), (false, true));
    assert_eq!(get_key_press_type(true, false, true, true), (true, true));
    assert_eq!(get_key_press_type(false, false, false, false), (false, false));
}

#[test]
fn value_near_is_a_closed_window() {
    assert!(value_near(150, 100, 50));
    assert!(value_near(50, 100, 50));
    assert!(value_near(100, 100, 50));
    assert!(!value_near(151, 100, 50));
    assert!(!value_near(49, 100, 50));
}

#[test]
fn good_hit_returns_offset_and_true() {
    let bm = map_with_window(50);
    let note = HitObject { red: true, time: 1000, big: false };
    assert_eq!(check_hit(&bm, &note, 1020, true, false), (Some(20), true));
    assert_eq!(check_hit(&bm, &note, 980, true, false), (Some(-20), true));
}

#[test]
fn wrong_key_returns_offset_and_false() {
    let bm = map_with_window(50);
    let note = HitObject { red: true, time: 1000, big: false };
    assert_eq!(check_hit(&bm, &note, 1020, false, false), (Some(20), false));
}

#[test]
fn wrong_dual_returns_offset_and_false() {
    let bm = map_with_window(50);
    let big_note = HitObject { red: true, time: 1000, big: true };
    assert_eq!(check_hit(&bm, &big_note, 1020, true, false), (Some(20), false));
    let small_note = HitObject { red: true, time: 1000, big: false };
    assert_eq!(check_hit(&bm, &small_note, 1020, true, true), (Some(20), false));
}

#[test]
fn outside_window_returns_none() {
    let bm = map_with_window(50);
    let note = HitObject { red: true, time: 1000, big: false };
    assert_eq!(check_hit(&bm, &note, 1051, true, false), (None, false));
    assert_eq!(check_hit(&bm, &note, 949, true, false), (None, false));
    // The window is closed: exactly on its edge still counts.
    assert_eq!(check_hit(&bm, &note, 1050, true, false), (Some(50), true));
    assert_eq!(check_hit(&bm, &note, 950, true, false), (Some(-50), true));
}

#[test]
fn big_blue_hit() {
    let bm = map_with_window(50);
    let note = HitObject { red: false, time: 500, big: true };
    assert_eq!(check_hit(&bm, &note, 500, false, true), (Some(0), true));
}

#[test]
fn osu_time_is_milliseconds() {
    assert_eq!(osu_to_real_time(0), 0);
    assert_eq!(osu_to_real_time(1234), 1234);
    assert_eq!(osu_to_real_time(-50), -50);
    assert_eq!(osu_to_real_time(i32::MAX), 2147483647);
}
