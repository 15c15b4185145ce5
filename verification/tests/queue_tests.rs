use taiko::components::HitObject;
use taiko::resources::{BeatMap, HitObjectQueue, HitOffsets, HitResult, UserSettings};
use taiko::systems::{apply_input, drop_missed};

fn note(red: bool, time: i64, big: bool) -> HitObject {
    HitObject { red, time, big }
}

fn map_with_notes(notes: Vec<HitObject>) -> BeatMap {
    BeatMap { name: Vec::new(), songpath: Vec::new(), objects: notes, maxhitoffset: 50 }
}

#[test]
fn new_queue_is_empty() {
    assert_eq!(HitObjectQueue::new().queue.len(), 0);
    assert_eq!(HitObjectQueue::default().queue.len(), 0);
}

#[test]
fn queue_from_beatmap_keeps_order() {
    let bm = map_with_notes(vec![note(true, 100, false), note(false, 200, true)]);
    let q = HitObjectQueue::from_beatmap(&bm);
    assert_eq!(q.queue.len(), 2);
    assert_eq!(q.queue[0], note(true, 100, false));
    assert_eq!(q.queue[1], note(false, 200, true));
}

#[test]
fn overdue_notes_are_dropped_as_misses() {
    let mut q = HitObjectQueue::new();
    q.queue.push_back(note(true, 100, false));
    q.queue.push_back(note(false, 200, false));
    q.queue.push_back(note(true, 300, false));
    let mut offsets = HitOffsets::default();
    // At t = 251 the first two windows (ending at 150 and 250) have passed.
    let dropped = drop_missed(&mut q, &mut offsets, 50, 251);
    assert_eq!(dropped, vec![100, 200]);
    assert_eq!(q.queue.len(), 1);
    assert_eq!(q.queue[0].time, 300);
    assert_eq!(offsets.offsets, vec![None, None]);
}

#[test]
fn note_on_window_edge_is_not_dropped() {
    let mut q = HitObjectQueue::new();
    q.queue.push_back(note(true, 100, false));
    let mut offsets = HitOffsets::default();
    // The window ends at 150; at exactly 150 the note can still be hit.
    let dropped = drop_missed(&mut q, &mut offsets, 50, 150);
    assert!(dropped.is_empty());
    assert_eq!(q.queue.len(), 1);
    assert!(offsets.offsets.is_empty());
}

#[test]
fn drop_stops_at_first_open_window() {
    let mut q = HitObjectQueue::new();
    // Not in chronological order: the scan stops at the first note whose
    // window is still open, never looking past it.
    q.queue.push_back(note(true, 500, false));
    q.queue.push_back(note(true, 100, false));
    let mut offsets = HitOffsets::default();
    let dropped = drop_missed(&mut q, &mut offsets, 50, 300);
    assert!(dropped.is_empty());
    assert_eq!(q.queue.len(), 2);
}

#[test]
fn input_resolves_only_the_head() {
    let bm = map_with_notes(Vec::new());
    let mut q = HitObjectQueue::new();
    q.queue.push_back(note(true, 100, false));
    q.queue.push_back(note(true, 120, false));
    let mut offsets = HitOffsets::default();
    let resolved = apply_input(&bm, &mut q, &mut offsets, 110, true, false);
    assert_eq!(resolved, Some(100));
    assert_eq!(q.queue.len(), 1);
    assert_eq!(q.queue[0].time, 120);
    assert_eq!(offsets.offsets, vec![Some(10)]);
}

#[test]
fn wrongly_keyed_hit_logs_a_miss() {
    let bm = map_with_notes(Vec::new());
    let mut q = HitObjectQueue::new();
    q.queue.push_back(note(true, 100, false));
    let mut offsets = HitOffsets::default();
    let resolved = apply_input(&bm, &mut q, &mut offsets, 110, false, false);
    assert_eq!(resolved, Some(100));
    assert!(q.queue.is_empty());
    assert_eq!(offsets.offsets, vec![None]);
}

#[test]
fn input_outside_window_leaves_queue_unchanged() {
    let bm = map_with_notes(Vec::new());
    let mut q = HitObjectQueue::new();
    q.queue.push_back(note(true, 100, false));
    let mut offsets = HitOffsets::default();
    let resolved = apply_input(&bm, &mut q, &mut offsets, 400, true, false);
    assert_eq!(resolved, None);
    assert_eq!(q.queue.len(), 1);
    assert_eq!(q.queue[0].time, 100);
    assert!(offsets.offsets.is_empty());
}

#[test]
fn input_on_empty_queue_does_nothing() {
    let bm = map_with_notes(Vec::new());
    let mut q = HitObjectQueue::new();
    let mut offsets = HitOffsets::default();
    let resolved = apply_input(&bm, &mut q, &mut offsets, 100, true, false);
    assert_eq!(resolved, None);
    assert!(q.queue.is_empty());
    assert!(offsets.offsets.is_empty());
}

#[test]
fn a_dropped_note_could_not_have_been_hit() {
    // At the instant drop_missed removes a note, check_hit on the same
    // note finds nothing, whatever keys are pressed.
    let bm = map_with_notes(Vec::new());
    let overdue = note(true, 100, false);
    let mut q = HitObjectQueue::new();
    q.queue.push_back(overdue);
    let mut offsets = HitOffsets::default();
    let dropped = drop_missed(&mut q, &mut offsets, 50, 151);
    assert_eq!(dropped, vec![100]);
    for red in [false, true] {
        for dual in [false, true] {
            assert_eq!(taiko::utils::check_hit(&bm, &overdue, 151, red, dual), (None, false));
        }
    }
}

#[test]
fn defaults() {
    assert!(matches!(HitResult::default(), HitResult::Miss));
    assert_eq!(UserSettings::default().offset, 0);
    assert!(HitOffsets::default().offsets.is_empty());
    let bm = BeatMap::default();
    assert!(bm.name.is_empty());
    assert!(bm.songpath.is_empty());
    assert!(bm.objects.is_empty());
    assert_eq!(bm.maxhitoffset, 0);
}
