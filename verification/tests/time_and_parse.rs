use prpr::chart::Easing;
use prpr::parse::{
    beat_to_ms, normalize, BpmSegment, ParseError, RawChart, RawEvent, RawLine, RawNote,
    RawNoteKind,
};
use prpr::time::TimeManager;

#[test]
fn chart_time_tracks_the_scaled_clock() {
    let tm = TimeManager::new(1_000, 1_000);
    assert_eq!(tm.now(1_000), 0);
    assert_eq!(tm.now(3_500), 2_500);
}

#[test]
fn pause_freezes_and_resume_is_seamless() {
    let mut tm = TimeManager::new(0, 1_000);
    tm.pause(3_000);
    assert!(tm.paused());
    assert_eq!(tm.now(4_000), 3_000);
    assert_eq!(tm.now(9_000), 3_000);
    tm.resume(10_000);
    assert!(!tm.paused());
    assert_eq!(tm.now(10_000), 3_000);
    assert_eq!(tm.now(11_000), 4_000);
}

#[test]
fn seek_redefines_the_epoch() {
    let mut tm = TimeManager::new(0, 1_000);
    tm.seek(6_000, 500);
    assert_eq!(tm.now(6_000), 500);
    assert_eq!(tm.now(7_000), 1_500);
    tm.seek(7_000, 0);
    assert_eq!(tm.now(7_000), 0);
}

#[test]
fn double_speed_runs_chart_time_twice_as_fast() {
    let tm = TimeManager::new(1_000, 2_000);
    assert_eq!(tm.now(1_000), 0);
    assert_eq!(tm.now(2_000), 2_000);
}

#[test]
fn changing_speed_mid_session_keeps_time_consistent() {
    let mut tm = TimeManager::new(0, 1_000);
    assert_eq!(tm.now(4_000), 4_000);
    tm.set_speed(4_000, 2_000);
    assert_eq!(tm.now(4_000), 4_000);
    assert_eq!(tm.now(5_000), 6_000);
}

#[test]
fn beats_convert_through_the_bpm_table() {
    // 120 bpm: one beat is half a second.
    let segs = vec![BpmSegment { start_beat: 0, bpm: 120_000 }];
    assert_eq!(beat_to_ms(&segs, 0), 0);
    assert_eq!(beat_to_ms(&segs, 1_000), 500);
    assert_eq!(beat_to_ms(&segs, 4_000), 2_000);
    // Tempo doubles at beat four.
    let table = vec![
        BpmSegment { start_beat: 0, bpm: 120_000 },
        BpmSegment { start_beat: 4_000, bpm: 240_000 },
    ];
    assert_eq!(beat_to_ms(&table, 4_000), 2_000);
    assert_eq!(beat_to_ms(&table, 6_000), 2_500);
}

fn empty_line() -> RawLine {
    RawLine {
        event_x: Vec::new(),
        event_y: Vec::new(),
        event_rotation: Vec::new(),
        event_opacity: Vec::new(),
    }
}

fn simple_raw(notes: Vec<RawNote>) -> RawChart {
    RawChart {
        offset: 0,
        track_length: 10_000,
        bpm_list: vec![BpmSegment { start_beat: 0, bpm: 120_000 }],
        lines: vec![empty_line()],
        notes,
    }
}

fn raw_tap(line_index: usize, beat: i64) -> RawNote {
    RawNote { line_index, beat, kind: RawNoteKind::Tap, speed: 1_000, x: 0, is_above: true }
}

#[test]
fn normalize_converts_sorts_and_synthesizes_defaults() {
    let raw = simple_raw(vec![raw_tap(0, 4_000), raw_tap(0, 1_000), raw_tap(0, 2_000)]);
    let chart = normalize(&raw).unwrap();
    assert_eq!(chart.lines.len(), 1);
    assert_eq!(chart.track_length, 10_000);
    let times: Vec<i64> = chart.lines[0].notes.iter().map(|n| n.time).collect();
    assert_eq!(times, vec![500, 1_000, 2_000]);
    // Omitted event lists become one full-coverage constant event.
    let op = &chart.lines[0].event_opacity;
    assert_eq!(op.len(), 1);
    assert_eq!(op[0].start_time, 0);
    assert_eq!(op[0].end_time, 10_000);
    assert_eq!(op[0].start_value, 1_000);
    assert_eq!(op[0].end_value, 1_000);
    assert_eq!(chart.lines[0].transform_at(5_000).opacity, 1_000);
    assert_eq!(chart.lines[0].transform_at(5_000).x, 0);
}

#[test]
fn normalize_converts_hold_durations() {
    let raw = simple_raw(vec![RawNote {
        line_index: 0,
        beat: 2_000,
        kind: RawNoteKind::Hold { hold_beats: 1_000 },
        speed: 1_000,
        x: 0,
        is_above: true,
    }]);
    let chart = normalize(&raw).unwrap();
    let n = chart.lines[0].notes[0];
    assert_eq!(n.time, 1_000);
    assert_eq!(n.end_time_ms(), 1_500);
}

#[test]
fn normalize_converts_explicit_events() {
    let mut raw = simple_raw(vec![]);
    raw.lines[0].event_x = vec![
        RawEvent { start_beat: 0, end_beat: 2_000, start_value: 0, end_value: 600, easing: Easing::Linear },
        RawEvent { start_beat: 2_000, end_beat: 4_000, start_value: 600, end_value: 0, easing: Easing::Linear },
    ];
    let chart = normalize(&raw).unwrap();
    let xs = &chart.lines[0].event_x;
    assert_eq!(xs.len(), 2);
    assert_eq!(xs[0].start_time, 0);
    assert_eq!(xs[0].end_time, 1_000);
    assert_eq!(xs[1].start_time, 1_000);
    assert_eq!(xs[1].end_time, 2_000);
    assert_eq!(chart.lines[0].transform_at(500).x, 300);
}

#[test]
fn empty_bpm_table_is_malformed() {
    let mut raw = simple_raw(vec![]);
    raw.bpm_list = Vec::new();
    assert!(matches!(normalize(&raw), Err(ParseError::Malformed)));
}

#[test]
fn nonpositive_bpm_is_malformed() {
    let mut raw = simple_raw(vec![]);
    raw.bpm_list = vec![BpmSegment { start_beat: 0, bpm: 0 }];
    assert!(matches!(normalize(&raw), Err(ParseError::Malformed)));
}

#[test]
fn note_on_missing_line_is_malformed() {
    let raw = simple_raw(vec![raw_tap(3, 1_000)]);
    assert!(matches!(normalize(&raw), Err(ParseError::Malformed)));
}

#[test]
fn event_gap_or_overlap_is_malformed() {
    let mut raw = simple_raw(vec![]);
    raw.lines[0].event_x = vec![
        RawEvent { start_beat: 0, end_beat: 2_000, start_value: 0, end_value: 1, easing: Easing::Linear },
        RawEvent { start_beat: 3_000, end_beat: 4_000, start_value: 1, end_value: 0, easing: Easing::Linear },
    ];
    assert!(matches!(normalize(&raw), Err(ParseError::Malformed)));
    raw.lines[0].event_x = vec![
        RawEvent { start_beat: 0, end_beat: 3_000, start_value: 0, end_value: 1, easing: Easing::Linear },
        RawEvent { start_beat: 2_000, end_beat: 4_000, start_value: 1, end_value: 0, easing: Easing::Linear },
    ];
    assert!(matches!(normalize(&raw), Err(ParseError::Malformed)));
}

#[test]
fn empty_event_interval_is_malformed() {
    let mut raw = simple_raw(vec![]);
    raw.lines[0].event_x = vec![RawEvent {
        start_beat: 1_000,
        end_beat: 1_000,
        start_value: 0,
        end_value: 1,
        easing: Easing::Linear,
    }];
    assert!(matches!(normalize(&raw), Err(ParseError::Malformed)));
}

#[test]
fn nonpositive_track_length_is_malformed() {
    let mut raw = simple_raw(vec![]);
    raw.track_length = 0;
    assert!(matches!(normalize(&raw), Err(ParseError::Malformed)));
}

#[test]
fn negative_hold_duration_is_malformed() {
    let raw = simple_raw(vec![RawNote {
        line_index: 0,
        beat: 2_000,
        kind: RawNoteKind::Hold { hold_beats: -1 },
        speed: 1_000,
        x: 0,
        is_above: true,
    }]);
    assert!(matches!(normalize(&raw), Err(ParseError::Malformed)));
}

#[test]
fn normalized_chart_plays_through_the_judge() {
    let raw = simple_raw(vec![raw_tap(0, 2_000), raw_tap(0, 4_000)]);
    let chart = normalize(&raw).unwrap();
    let mut judge = prpr::judge::Judge::new(&chart);
    let mut bad = Vec::new();
    let touch = prpr::judge::Touch {
        id: 1,
        phase: prpr::judge::TouchPhase::Started,
        x: 0,
        y: 0,
    };
    judge.update(&chart, 1_000, &vec![touch], &mut bad);
    judge.update(&chart, 9_999, &vec![], &mut bad);
    assert_eq!(judge.counts(), [1, 0, 0, 1]);
}
