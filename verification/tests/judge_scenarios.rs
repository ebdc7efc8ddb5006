use prpr::chart::{Chart, Easing, Event, JudgeLine, Note, NoteKind};
use prpr::judge::{BadNote, Judge, Touch, TouchPhase, GOOD_WINDOW};
use prpr::score::LineColor;

fn full_event(value: i64) -> Vec<Event> {
    vec![Event {
        start_time: 0,
        end_time: 100_000,
        start_value: value,
        end_value: value,
        easing: Easing::Linear,
    }]
}

fn one_line_chart(notes: Vec<Note>) -> Chart {
    Chart {
        offset: 0,
        track_length: 100_000,
        lines: vec![JudgeLine {
            notes,
            event_x: full_event(0),
            event_y: full_event(0),
            event_rotation: full_event(0),
            event_opacity: full_event(1_000),
        }],
    }
}

fn tap_at(time: i64) -> Note {
    Note { time, kind: NoteKind::Tap, speed: 1_000, x: 0, is_above: true }
}

fn started(id: u64, x: i64) -> Touch {
    Touch { id, phase: TouchPhase::Started, x, y: 0 }
}

fn ended(id: u64) -> Touch {
    Touch { id, phase: TouchPhase::Ended, x: 0, y: 0 }
}

#[test]
fn touch_inside_perfect_window_scores_perfect() {
    let chart = one_line_chart(vec![tap_at(5_000)]);
    let mut judge = Judge::new(&chart);
    let mut bad = Vec::new();
    judge.update(&chart, 5_050, &vec![started(1, 0)], &mut bad);
    assert_eq!(judge.counts(), [1, 0, 0, 0]);
    assert_eq!(judge.combo, 1);
    assert_eq!(bad.len(), 0);
}

#[test]
fn touch_in_good_window_scores_good() {
    let chart = one_line_chart(vec![tap_at(5_000)]);
    let mut judge = Judge::new(&chart);
    let mut bad = Vec::new();
    judge.update(&chart, 5_150, &vec![started(1, 0)], &mut bad);
    assert_eq!(judge.counts(), [0, 1, 0, 0]);
    assert_eq!(judge.combo, 1);
    assert_eq!(bad.len(), 0);
}

#[test]
fn unanswered_note_misses_after_good_window() {
    let chart = one_line_chart(vec![tap_at(5_000)]);
    let mut judge = Judge::new(&chart);
    let mut bad = Vec::new();
    judge.update(&chart, 5_190, &vec![], &mut bad);
    assert_eq!(judge.counts(), [0, 0, 0, 1]);
    assert_eq!(judge.combo, 0);
    assert_eq!(bad.len(), 1);
}

#[test]
fn touch_exactly_at_note_time_is_perfect() {
    let chart = one_line_chart(vec![tap_at(5_000)]);
    let mut judge = Judge::new(&chart);
    let mut bad = Vec::new();
    judge.update(&chart, 5_000, &vec![started(1, 0)], &mut bad);
    assert_eq!(judge.counts(), [1, 0, 0, 0]);
}

#[test]
fn touch_after_good_window_matches_nothing() {
    // The miss sweep runs before touch matching, so a touch arriving past
    // the good window finds the note already missed and scores nothing.
    let chart = one_line_chart(vec![tap_at(5_000)]);
    let mut judge = Judge::new(&chart);
    let mut bad = Vec::new();
    judge.update(&chart, 5_000 + GOOD_WINDOW + 10, &vec![started(1, 0)], &mut bad);
    assert_eq!(judge.counts(), [0, 0, 0, 1]);
    assert_eq!(bad.len(), 1);
}

#[test]
fn early_touch_in_bad_window_scores_bad() {
    let chart = one_line_chart(vec![tap_at(5_000)]);
    let mut judge = Judge::new(&chart);
    let mut bad = Vec::new();
    judge.update(&chart, 4_800, &vec![started(1, 0)], &mut bad);
    assert_eq!(judge.counts(), [0, 0, 1, 0]);
    assert_eq!(judge.combo, 0);
    assert_eq!(bad.len(), 1);
}

#[test]
fn stray_touch_is_ignored() {
    let chart = one_line_chart(vec![tap_at(5_000)]);
    let mut judge = Judge::new(&chart);
    let mut bad = Vec::new();
    judge.update(&chart, 5_000, &vec![started(1, 5_000)], &mut bad);
    assert_eq!(judge.counts(), [0, 0, 0, 0]);
    assert_eq!(judge.combo, 0);
    assert_eq!(bad.len(), 0);
}

#[test]
fn hold_broken_when_touch_lifts_early() {
    let hold = Note {
        time: 2_000,
        kind: NoteKind::Hold { hold_time: 1_000 },
        speed: 1_000,
        x: 0,
        is_above: true,
    };
    let chart = one_line_chart(vec![hold]);
    let mut judge = Judge::new(&chart);
    let mut bad = Vec::new();
    judge.update(&chart, 1_950, &vec![started(7, 0)], &mut bad);
    assert_eq!(judge.counts(), [0, 0, 0, 0]);
    judge.update(&chart, 2_900, &vec![ended(7)], &mut bad);
    assert_eq!(judge.counts(), [0, 0, 1, 0]);
    assert_eq!(judge.combo, 0);
    assert_eq!(bad.len(), 1);
}

#[test]
fn hold_completed_when_touch_outlasts_it() {
    let hold = Note {
        time: 2_000,
        kind: NoteKind::Hold { hold_time: 1_000 },
        speed: 1_000,
        x: 0,
        is_above: true,
    };
    let chart = one_line_chart(vec![hold]);
    let mut judge = Judge::new(&chart);
    let mut bad = Vec::new();
    judge.update(&chart, 1_950, &vec![started(7, 0)], &mut bad);
    judge.update(&chart, 3_050, &vec![], &mut bad);
    judge.update(&chart, 3_100, &vec![ended(7)], &mut bad);
    assert_eq!(judge.counts(), [1, 0, 0, 0]);
    assert_eq!(judge.combo, 1);
    assert_eq!(bad.len(), 0);
}

#[test]
fn combo_resets_exactly_on_bad_or_miss() {
    let chart = one_line_chart(vec![tap_at(1_000), tap_at(2_000), tap_at(3_000)]);
    let mut judge = Judge::new(&chart);
    let mut bad = Vec::new();
    judge.update(&chart, 1_000, &vec![started(1, 0)], &mut bad);
    assert_eq!(judge.combo, 1);
    judge.update(&chart, 2_000, &vec![started(2, 0)], &mut bad);
    assert_eq!(judge.combo, 2);
    // The third note misses: combo falls to exactly zero, not before.
    judge.update(&chart, 3_181, &vec![], &mut bad);
    assert_eq!(judge.combo, 0);
    assert_eq!(judge.counts(), [2, 0, 0, 1]);
    assert_eq!(judge.max_combo, 2);
}

#[test]
fn counts_reach_total_once_chart_is_over() {
    let chart = one_line_chart(vec![tap_at(1_000), tap_at(2_000), tap_at(3_000)]);
    let mut judge = Judge::new(&chart);
    let mut bad = Vec::new();
    judge.update(&chart, 1_000, &vec![started(1, 0)], &mut bad);
    let c = judge.counts();
    assert!(c[0] + c[1] + c[2] + c[3] <= 3);
    judge.update(&chart, 10_000, &vec![], &mut bad);
    let c = judge.counts();
    assert_eq!(c[0] + c[1] + c[2] + c[3], 3);
}

#[test]
fn tie_breaks_to_first_note_in_scan_order() {
    let chart = one_line_chart(vec![tap_at(5_000), tap_at(5_000)]);
    let mut judge = Judge::new(&chart);
    let mut bad = Vec::new();
    judge.update(&chart, 5_000, &vec![started(1, 0)], &mut bad);
    let c = judge.counts();
    assert_eq!(c[0], 1);
    assert_eq!(c[0] + c[1] + c[2] + c[3], 1);
}

#[test]
fn reset_then_replay_reproduces_scores() {
    let chart = one_line_chart(vec![tap_at(1_000), tap_at(2_000)]);
    let mut judge = Judge::new(&chart);
    let mut bad: Vec<BadNote> = Vec::new();
    let frames: Vec<(i64, Vec<Touch>)> =
        vec![(1_050, vec![started(1, 0)]), (2_500, vec![]), (9_000, vec![])];
    for (t, touches) in &frames {
        judge.update(&chart, *t, touches, &mut bad);
    }
    let first = (judge.score(), judge.counts(), judge.combo, bad.clone());
    judge.reset(&chart, &mut bad);
    assert_eq!(bad.len(), 0);
    assert_eq!(judge.counts(), [0, 0, 0, 0]);
    assert_eq!(judge.combo, 0);
    assert_eq!(judge.score(), 0);
    for (t, touches) in &frames {
        judge.update(&chart, *t, touches, &mut bad);
    }
    let second = (judge.score(), judge.counts(), judge.combo, bad.clone());
    assert_eq!(first, second);
}

#[test]
fn autoplay_scores_every_note_perfect() {
    let chart = one_line_chart(vec![tap_at(1_000), tap_at(2_000)]);
    let mut judge = Judge::new(&chart);
    let mut bad = Vec::new();
    judge.set_autoplay(true);
    judge.update(&chart, 1_500, &vec![], &mut bad);
    assert_eq!(judge.counts(), [1, 0, 0, 0]);
    judge.update(&chart, 2_500, &vec![], &mut bad);
    assert_eq!(judge.counts(), [2, 0, 0, 0]);
    assert_eq!(judge.combo, 2);
    assert_eq!(bad.len(), 0);
}

#[test]
fn score_is_exact_for_known_tallies() {
    let chart = one_line_chart(vec![tap_at(1_000), tap_at(2_000)]);
    let mut judge = Judge::new(&chart);
    let mut bad = Vec::new();
    // Both perfect in one unbroken combo: the full million.
    judge.update(&chart, 1_000, &vec![started(1, 0)], &mut bad);
    judge.update(&chart, 2_000, &vec![started(2, 0)], &mut bad);
    assert_eq!(judge.score(), 1_000_000);

    // One perfect of two notes, best combo one of two.
    judge.reset(&chart, &mut bad);
    judge.update(&chart, 1_000, &vec![started(1, 0)], &mut bad);
    judge.update(&chart, 9_000, &vec![], &mut bad);
    assert_eq!(judge.score(), 450_000 + 50_000);
}

#[test]
fn good_scores_sixty_five_percent_of_flat_pool() {
    let chart = one_line_chart(vec![tap_at(1_000)]);
    let mut judge = Judge::new(&chart);
    let mut bad = Vec::new();
    judge.update(&chart, 1_150, &vec![started(1, 0)], &mut bad);
    assert_eq!(judge.counts(), [0, 1, 0, 0]);
    assert_eq!(judge.score(), 585_000 + 100_000);
}

#[test]
fn highlight_color_follows_tallies() {
    let chart = one_line_chart(vec![tap_at(1_000), tap_at(2_000), tap_at(3_000)]);
    let mut judge = Judge::new(&chart);
    let mut bad = Vec::new();
    assert_eq!(judge.highlight_color(), LineColor::AllPerfect);
    judge.update(&chart, 1_000, &vec![started(1, 0)], &mut bad);
    assert_eq!(judge.highlight_color(), LineColor::AllPerfect);
    judge.update(&chart, 2_150, &vec![started(2, 0)], &mut bad);
    assert_eq!(judge.highlight_color(), LineColor::FullCombo);
    judge.update(&chart, 10_000, &vec![], &mut bad);
    assert_eq!(judge.highlight_color(), LineColor::Neutral);
}

#[test]
fn bad_note_expires_after_its_duration() {
    let chart = one_line_chart(vec![tap_at(5_000)]);
    let mut judge = Judge::new(&chart);
    let mut bad = Vec::new();
    judge.update(&chart, 5_190, &vec![], &mut bad);
    assert_eq!(bad.len(), 1);
    assert!(!bad[0].expired(5_400));
    assert!(bad[0].expired(5_690));
}

#[test]
fn hold_tapped_outside_good_window_is_bad_at_once() {
    let hold = Note {
        time: 5_000,
        kind: NoteKind::Hold { hold_time: 1_000 },
        speed: 1_000,
        x: 0,
        is_above: true,
    };
    let chart = one_line_chart(vec![hold]);
    let mut judge = Judge::new(&chart);
    let mut bad = Vec::new();
    judge.update(&chart, 4_800, &vec![started(1, 0)], &mut bad);
    assert_eq!(judge.counts(), [0, 0, 1, 0]);
    assert_eq!(bad.len(), 1);
}

#[test]
fn notes_are_judged_on_their_own_lines() {
    let line_a = JudgeLine {
        notes: vec![tap_at(5_000)],
        event_x: full_event(-500),
        event_y: full_event(0),
        event_rotation: full_event(0),
        event_opacity: full_event(1_000),
    };
    let line_b = JudgeLine {
        notes: vec![tap_at(5_000)],
        event_x: full_event(500),
        event_y: full_event(0),
        event_rotation: full_event(0),
        event_opacity: full_event(1_000),
    };
    let chart = Chart { offset: 0, track_length: 100_000, lines: vec![line_a, line_b] };
    let mut judge = Judge::new(&chart);
    let mut bad = Vec::new();
    // A touch over the second line's note hits it and not the first's.
    judge.update(&chart, 5_000, &vec![started(1, 500)], &mut bad);
    assert_eq!(judge.counts(), [1, 0, 0, 0]);
    judge.update(&chart, 10_000, &vec![], &mut bad);
    assert_eq!(judge.counts(), [1, 0, 0, 1]);
}

#[test]
fn feedback_entity_appears_at_the_note_lane() {
    let note = Note { time: 5_000, kind: NoteKind::Tap, speed: 1_000, x: 150, is_above: true };
    let chart = Chart {
        offset: 0,
        track_length: 100_000,
        lines: vec![JudgeLine {
            notes: vec![note],
            event_x: full_event(250),
            event_y: full_event(-40),
            event_rotation: full_event(0),
            event_opacity: full_event(1_000),
        }],
    };
    let mut judge = Judge::new(&chart);
    let mut bad = Vec::new();
    judge.update(&chart, 5_200, &vec![], &mut bad);
    assert_eq!(bad.len(), 1);
    assert_eq!(bad[0].time, 5_200);
    assert_eq!(bad[0].x, 400);
    assert_eq!(bad[0].y, -40);
    assert_eq!(bad[0].kind, NoteKind::Tap);
}

#[test]
fn moved_touches_change_nothing_for_taps() {
    let chart = one_line_chart(vec![tap_at(5_000)]);
    let mut judge = Judge::new(&chart);
    let mut bad = Vec::new();
    let moved = Touch { id: 1, phase: TouchPhase::Moved, x: 0, y: 0 };
    judge.update(&chart, 5_000, &vec![moved], &mut bad);
    assert_eq!(judge.counts(), [0, 0, 0, 0]);
}
