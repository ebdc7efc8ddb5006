use prpr::chart::{apply_easing, eval_events, Easing, Event, JudgeLine, Note, NoteKind, PROGRESS_UNIT};

fn ramp(start_time: i64, end_time: i64, start_value: i64, end_value: i64, easing: Easing) -> Event {
    Event { start_time, end_time, start_value, end_value, easing }
}

fn line_with_x(events: Vec<Event>) -> JudgeLine {
    let flat = vec![ramp(0, 100_000, 0, 0, Easing::Linear)];
    JudgeLine {
        notes: Vec::new(),
        event_x: events,
        event_y: flat.clone(),
        event_rotation: flat.clone(),
        event_opacity: flat,
    }
}

#[test]
fn single_event_is_exact_at_both_boundaries() {
    let line = line_with_x(vec![ramp(1_000, 3_000, 100, 500, Easing::Linear)]);
    assert_eq!(line.transform_at(1_000).x, 100);
    assert_eq!(line.transform_at(3_000).x, 500);
    assert_eq!(line.transform_at(2_000).x, 300);
}

#[test]
fn quad_easing_boundaries_are_exact_too() {
    let line_in = line_with_x(vec![ramp(1_000, 3_000, 100, 500, Easing::QuadIn)]);
    assert_eq!(line_in.transform_at(1_000).x, 100);
    assert_eq!(line_in.transform_at(3_000).x, 500);
    // Quadratic-in at the midpoint: a quarter of the way.
    assert_eq!(line_in.transform_at(2_000).x, 200);
    let line_out = line_with_x(vec![ramp(1_000, 3_000, 100, 500, Easing::QuadOut)]);
    assert_eq!(line_out.transform_at(1_000).x, 100);
    assert_eq!(line_out.transform_at(3_000).x, 500);
    assert_eq!(line_out.transform_at(2_000).x, 400);
}

#[test]
fn times_outside_the_lists_clamp_to_boundary_values() {
    let line = line_with_x(vec![ramp(1_000, 3_000, 100, 500, Easing::Linear)]);
    assert_eq!(line.transform_at(0).x, 100);
    assert_eq!(line.transform_at(99_999).x, 500);
}

#[test]
fn binary_search_finds_the_covering_interval() {
    let evs = vec![
        ramp(0, 1_000, 0, 10, Easing::Linear),
        ramp(1_000, 2_000, 10, 20, Easing::Linear),
        ramp(2_000, 3_000, 20, 40, Easing::Linear),
        ramp(3_000, 4_000, 40, 0, Easing::Linear),
    ];
    assert_eq!(eval_events(&evs, 500), 5);
    assert_eq!(eval_events(&evs, 1_500), 15);
    assert_eq!(eval_events(&evs, 2_500), 30);
    assert_eq!(eval_events(&evs, 3_500), 20);
    assert_eq!(eval_events(&evs, 1_000), 10);
    assert_eq!(eval_events(&evs, 4_000), 0);
    assert_eq!(eval_events(&evs, 9_999), 0);
}

#[test]
fn easing_progress_values_are_exact() {
    assert_eq!(apply_easing(Easing::Linear, 123_456), 123_456);
    assert_eq!(apply_easing(Easing::QuadIn, PROGRESS_UNIT / 2), PROGRESS_UNIT / 4);
    assert_eq!(apply_easing(Easing::QuadOut, PROGRESS_UNIT / 4), 437_500);
    assert_eq!(apply_easing(Easing::QuadIn, PROGRESS_UNIT), PROGRESS_UNIT);
    assert_eq!(apply_easing(Easing::QuadOut, 0), 0);
}

#[test]
fn fall_progress_is_signed_and_speed_scaled() {
    let note = Note { time: 2_000, kind: NoteKind::Tap, speed: 1_500, x: 0, is_above: true };
    assert_eq!(note.fall_progress(1_000), -1_500_000);
    assert_eq!(note.fall_progress(2_000), 0);
    assert_eq!(note.fall_progress(2_001), 1_500);
    assert_eq!(note.end_time_ms(), 2_000);
    let hold = Note {
        time: 2_000,
        kind: NoteKind::Hold { hold_time: 750 },
        speed: 1_000,
        x: 0,
        is_above: true,
    };
    assert_eq!(hold.end_time_ms(), 2_750);
}
