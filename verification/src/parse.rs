//! Chart normalization: source chart formats describe timing in musical
//! beats against a BPM table, events as per-line keyframe lists, and notes
//! as a flat list referencing lines by index. This module turns such a raw
//! description into the normalized [`Chart`] model: beats become
//! milliseconds, notes are assigned to their lines and sorted by time, event
//! lists are validated (no gaps, no overlaps, sorted) and, where a source
//! omits a quantity entirely, a default full-coverage event is synthesized
//! so every line always covers all times.
//!
//! A malformed description — a bad BPM table, an event list with gaps or
//! overlaps, a note referencing a line that does not exist, or a value out
//! of range — is rejected whole: no partially-recovered, playable-but-corrupt
//! chart ever comes out.

use vstd::prelude::*;
use vstd::seq_lib::group_to_multiset_ensures;
use crate::chart::{
    events_wf, Chart, Easing, Event, JudgeLine, Note, NoteKind, NOTE_LIMIT, SPEED_LIMIT,
    TIME_LIMIT, VALUE_LIMIT,
};

verus! {

/// Largest beat count, in thousandths of a beat.
pub const BEAT_LIMIT: i64 = 100_000_000;

/// Largest tempo, in thousandths of a beat per minute.
pub const BPM_LIMIT: i64 = 1_000_000_000;

/// Default opacity for lines whose source omits opacity events.
pub const DEFAULT_OPACITY: i64 = 1_000;

/// Why a raw chart was rejected.
#[derive(Clone, Copy, PartialEq, Eq, Structural, Debug)]
pub enum ParseError {
    /// A required field is absent or structurally inconsistent.
    Malformed,
}

/// One tempo segment: from `start_beat` (in milli-beats) onwards the song
/// runs at `bpm` milli-beats-per-minute, until the next segment.
#[derive(Clone, Copy, PartialEq, Eq, Structural, Debug)]
pub struct BpmSegment {
    pub start_beat: i64,
    pub bpm: i64,
}

/// A keyframe in beats, before conversion to milliseconds.
#[derive(Clone, Copy, PartialEq, Eq, Structural, Debug)]
pub struct RawEvent {
    pub start_beat: i64,
    pub end_beat: i64,
    pub start_value: i64,
    pub end_value: i64,
    pub easing: Easing,
}

#[derive(Clone, Copy, PartialEq, Eq, Structural, Debug)]
pub enum RawNoteKind {
    Tap,
    Drag,
    Hold { hold_beats: i64 },
    Flick,
}

/// A note in beats, referencing its judge line by source index.
#[derive(Clone, Copy, PartialEq, Eq, Structural, Debug)]
pub struct RawNote {
    pub line_index: usize,
    pub beat: i64,
    pub kind: RawNoteKind,
    pub speed: i64,
    pub x: i64,
    pub is_above: bool,
}

/// A judge line's raw event lists. An empty list means the source omitted
/// that quantity and a default full-coverage event is synthesized.
pub struct RawLine {
    pub event_x: Vec<RawEvent>,
    pub event_y: Vec<RawEvent>,
    pub event_rotation: Vec<RawEvent>,
    pub event_opacity: Vec<RawEvent>,
}

/// A chart as a source format reader hands it over, before normalization.
pub struct RawChart {
    pub offset: i64,
    pub track_length: i64,
    pub bpm_list: Vec<BpmSegment>,
    pub lines: Vec<RawLine>,
    pub notes: Vec<RawNote>,
}

/// A usable BPM table: nonempty, anchored at beat zero, strictly ascending,
/// with positive bounded tempos.
#[verifier::opaque]
pub open spec fn bpm_list_ok(segs: Seq<BpmSegment>) -> bool {
    &&& segs.len() > 0
    &&& segs[0].start_beat == 0
    &&& forall|i: int|
        0 <= i < segs.len() ==> 0 < (#[trigger] segs[i]).bpm <= BPM_LIMIT && 0 <= segs[i].start_beat
            <= BEAT_LIMIT
    &&& forall|i: int|
        0 <= i < segs.len() - 1 ==> (#[trigger] segs[i]).start_beat < segs[i + 1].start_beat
}

/// Chart time, in milliseconds, of the beat `b` under the table `segs`:
/// accumulated segment durations plus the partial segment the beat falls in
/// (sixty thousand milliseconds per minute, `bpm` milli-beats per minute).
#[verifier::opaque]
pub open spec fn ms_of_beat(segs: Seq<BpmSegment>, b: int) -> int
    decreases segs.len(),
{
    if segs.len() == 0 {
        0
    } else if segs.len() == 1 || b < segs[1].start_beat {
        ((b - segs[0].start_beat) * 60_000) / (segs[0].bpm as int)
    } else {
        ((segs[1].start_beat - segs[0].start_beat) * 60_000) / (segs[0].bpm as int) + ms_of_beat(
            segs.skip(1),
            b,
        )
    }
}

/// Executable beat-to-milliseconds conversion, exact to `ms_of_beat`.
#[verifier::rlimit(100)]
pub fn beat_to_ms(segs: &Vec<BpmSegment>, b: i64) -> (r: i64)
    requires
        bpm_list_ok(segs@),
        0 <= b <= BEAT_LIMIT,
    ensures
        r == ms_of_beat(segs@, b as int),
        0 <= r <= b * 60_000,
{
    proof {
        reveal(bpm_list_ok);
        reveal(ms_of_beat);
        assert(segs@.skip(0) =~= segs@);
    }
    let mut i: usize = 0;
    let mut acc: i64 = 0;
    let seg_total = segs.len();
    while i < seg_total - 1 && segs[i + 1].start_beat <= b
        invariant
            bpm_list_ok(segs@),
            0 <= b <= BEAT_LIMIT,
            seg_total == segs@.len(),
            1 <= seg_total,
            0 <= i < segs@.len(),
            segs@[i as int].start_beat <= b,
            0 <= acc <= segs@[i as int].start_beat * 60_000,
            ms_of_beat(segs@, b as int) == acc + ms_of_beat(segs@.skip(i as int), b as int),
        decreases segs@.len() - i,
    {
        proof {
            reveal(bpm_list_ok);
            reveal(ms_of_beat);
            assert(segs@.skip(i as int).skip(1) =~= segs@.skip(i as int + 1));
        }
        let step_beats = segs[i + 1].start_beat - segs[i].start_beat;
        let step = (step_beats * 60_000) / segs[i].bpm;
        proof {
            vstd::arithmetic::mul::lemma_mul_nonnegative(step_beats as int, 60_000);
            vstd::arithmetic::div_mod::lemma_div_pos_is_pos(step_beats * 60_000, segs@[i as int].bpm as int);
            vstd::arithmetic::div_mod::lemma_div_is_ordered_by_denominator(
                step_beats * 60_000,
                1,
                segs@[i as int].bpm as int,
            );
        }
        acc = acc + step;
        i = i + 1;
    }
    proof {
        reveal(bpm_list_ok);
        reveal(ms_of_beat);
        assert(segs@.skip(i as int)[0] == segs@[i as int]);
        if i + 1 < segs@.len() {
            assert(segs@.skip(i as int)[1] == segs@[i as int + 1]);
        }
    }
    let tail_beats = b - segs[i].start_beat;
    let tail = (tail_beats * 60_000) / segs[i].bpm;
    proof {
        vstd::arithmetic::mul::lemma_mul_nonnegative(tail_beats as int, 60_000);
        vstd::arithmetic::div_mod::lemma_div_pos_is_pos(tail_beats * 60_000, segs@[i as int].bpm as int);
        vstd::arithmetic::div_mod::lemma_div_is_ordered_by_denominator(
            tail_beats * 60_000,
            1,
            segs@[i as int].bpm as int,
        );
        vstd::arithmetic::mul::lemma_mul_is_distributive_sub_other_way(
            60_000,
            b as int,
            segs@[i as int].start_beat as int,
        );
    }
    acc + tail
}

/// Whether `check_bpm_list` accepts the table.
pub fn check_bpm_list(segs: &Vec<BpmSegment>) -> (r: bool)
    ensures
        r == bpm_list_ok(segs@),
{
    proof {
        reveal(bpm_list_ok);
    }
    if segs.len() == 0 {
        return false;
    }
    if segs[0].start_beat != 0 {
        return false;
    }
    let mut i: usize = 0;
    while i < segs.len()
        invariant
            0 <= i <= segs@.len(),
            forall|k: int|
                0 <= k < i ==> 0 < (#[trigger] segs@[k]).bpm <= BPM_LIMIT && 0 <= segs@[k].start_beat
                    <= BEAT_LIMIT,
            forall|k: int|
                0 <= k < i && k < segs@.len() - 1 ==> (#[trigger] segs@[k]).start_beat < segs@[k
                    + 1].start_beat,
        decreases segs@.len() - i,
    {
        let s = segs[i];
        if !(0 < s.bpm && s.bpm <= BPM_LIMIT && 0 <= s.start_beat && s.start_beat <= BEAT_LIMIT) {
            proof {
                reveal(bpm_list_ok);
            }
            return false;
        }
        if i + 1 < segs.len() && !(s.start_beat < segs[i + 1].start_beat) {
            proof {
                reveal(bpm_list_ok);
            }
            return false;
        }
        i = i + 1;
    }
    proof {
        reveal(bpm_list_ok);
    }
    true
}

// ---------------------------------------------------------------------------
// Event conversion
// ---------------------------------------------------------------------------

/// One raw event's fields are in range and its interval converts to a
/// nonempty millisecond interval inside the chart's representable range.
pub open spec fn raw_event_ok(segs: Seq<BpmSegment>, ev: RawEvent) -> bool {
    &&& 0 <= ev.start_beat <= BEAT_LIMIT
    &&& 0 <= ev.end_beat <= BEAT_LIMIT
    &&& 0 <= ms_of_beat(segs, ev.start_beat as int)
    &&& ms_of_beat(segs, ev.start_beat as int) < ms_of_beat(segs, ev.end_beat as int)
    &&& ms_of_beat(segs, ev.end_beat as int) <= TIME_LIMIT
    &&& -VALUE_LIMIT <= ev.start_value <= VALUE_LIMIT
    &&& -VALUE_LIMIT <= ev.end_value <= VALUE_LIMIT
}

/// The normalized form of one raw event.
pub open spec fn conv_event(segs: Seq<BpmSegment>, ev: RawEvent) -> Event {
    Event {
        start_time: ms_of_beat(segs, ev.start_beat as int) as i64,
        end_time: ms_of_beat(segs, ev.end_beat as int) as i64,
        start_value: ev.start_value,
        end_value: ev.end_value,
        easing: ev.easing,
    }
}

/// A usable raw event list: each event in range, and each event ending on
/// the very beat the next one starts — no gaps, no overlaps.
#[verifier::opaque]
pub open spec fn raw_events_ok(segs: Seq<BpmSegment>, evs: Seq<RawEvent>) -> bool {
    &&& forall|i: int| 0 <= i < evs.len() ==> raw_event_ok(segs, #[trigger] evs[i])
    &&& forall|i: int|
        0 <= i < evs.len() - 1 ==> (#[trigger] evs[i]).end_beat == evs[i + 1].start_beat
}

/// The synthesized event covering the whole chart with a constant value.
pub open spec fn default_event(value: i64, track_length: i64) -> Event {
    Event {
        start_time: 0,
        end_time: track_length,
        start_value: value,
        end_value: value,
        easing: Easing::Linear,
    }
}

/// The normalized event list: the converted keyframes, or the synthesized
/// full-coverage default where the source omitted the list.
pub open spec fn conv_events(
    segs: Seq<BpmSegment>,
    evs: Seq<RawEvent>,
    default: i64,
    track_length: i64,
) -> Seq<Event> {
    if evs.len() == 0 {
        seq![default_event(default, track_length)]
    } else {
        Seq::new(evs.len(), |i: int| conv_event(segs, evs[i]))
    }
}

/// Convert and validate one raw event list.
#[verifier::rlimit(100)]
fn convert_events(
    segs: &Vec<BpmSegment>,
    evs: &Vec<RawEvent>,
    default: i64,
    track_length: i64,
) -> (r: Result<Vec<Event>, ParseError>)
    requires
        bpm_list_ok(segs@),
        0 < track_length <= TIME_LIMIT,
        -VALUE_LIMIT <= default <= VALUE_LIMIT,
    ensures
        r is Ok <==> raw_events_ok(segs@, evs@),
        (match r {
            Result::Ok(out) => out@ == conv_events(segs@, evs@, default, track_length)
                && events_wf(out@),
            Result::Err(_) => true,
        }),
{
    if evs.len() == 0 {
        let mut out: Vec<Event> = Vec::new();
        out.push(
            Event {
                start_time: 0,
                end_time: track_length,
                start_value: default,
                end_value: default,
                easing: Easing::Linear,
            },
        );
        proof {
            reveal(raw_events_ok);
            reveal(events_wf);
            assert(out@ =~= conv_events(segs@, evs@, default, track_length));
        }
        return Ok(out);
    }
    let mut out: Vec<Event> = Vec::new();
    let mut i: usize = 0;
    while i < evs.len()
        invariant
            bpm_list_ok(segs@),
            0 <= i <= evs@.len(),
            evs@.len() > 0,
            out@.len() == i,
            forall|k: int| 0 <= k < i ==> raw_event_ok(segs@, #[trigger] evs@[k]),
            forall|k: int|
                0 <= k < i && k < evs@.len() - 1 ==> (#[trigger] evs@[k]).end_beat == evs@[k
                    + 1].start_beat,
            forall|k: int| 0 <= k < i ==> #[trigger] out@[k] == conv_event(segs@, evs@[k]),
        decreases evs@.len() - i,
    {
        let ev = evs[i];
        if !(0 <= ev.start_beat && ev.start_beat <= BEAT_LIMIT && 0 <= ev.end_beat && ev.end_beat
            <= BEAT_LIMIT) {
            proof {
                reveal(raw_events_ok);
            }
            return Err(ParseError::Malformed);
        }
        let start_ms = beat_to_ms(segs, ev.start_beat);
        let end_ms = beat_to_ms(segs, ev.end_beat);
        if !(start_ms < end_ms && end_ms <= TIME_LIMIT && -VALUE_LIMIT <= ev.start_value
            && ev.start_value <= VALUE_LIMIT && -VALUE_LIMIT <= ev.end_value && ev.end_value
            <= VALUE_LIMIT) {
            proof {
                reveal(raw_events_ok);
            }
            return Err(ParseError::Malformed);
        }
        if i + 1 < evs.len() && evs[i + 1].start_beat != ev.end_beat {
            proof {
                reveal(raw_events_ok);
            }
            return Err(ParseError::Malformed);
        }
        out.push(
            Event {
                start_time: start_ms,
                end_time: end_ms,
                start_value: ev.start_value,
                end_value: ev.end_value,
                easing: ev.easing,
            },
        );
        i = i + 1;
    }
    proof {
        assert(raw_events_ok(segs@, evs@)) by {
            reveal(raw_events_ok);
        }
        assert(out@ =~= conv_events(segs@, evs@, default, track_length));
        assert(events_wf(out@)) by {
            reveal(events_wf);
            assert forall|k: int| 0 <= k < out@.len() implies (#[trigger] out@[k]).wf() by {
                assert(raw_event_ok(segs@, evs@[k]));
            }
            assert forall|k: int| 0 <= k < out@.len() - 1 implies (#[trigger] out@[k]).end_time
                == out@[k + 1].start_time by {
                assert(raw_event_ok(segs@, evs@[k]));
                assert(raw_event_ok(segs@, evs@[k + 1]));
                assert(evs@[k].end_beat == evs@[k + 1].start_beat);
            }
        }
    }
    Ok(out)
}

// ---------------------------------------------------------------------------
// Note conversion and distribution
// ---------------------------------------------------------------------------

/// One raw note's fields are in range, its line exists, and its times
/// convert into the chart's representable range.
pub open spec fn raw_note_ok(segs: Seq<BpmSegment>, lines_len: int, rn: RawNote) -> bool {
    &&& rn.line_index < lines_len
    &&& 0 <= rn.beat <= BEAT_LIMIT
    &&& 0 <= ms_of_beat(segs, rn.beat as int)
    &&& match rn.kind {
        RawNoteKind::Hold { hold_beats } => {
            &&& hold_beats >= 0
            &&& rn.beat + hold_beats <= BEAT_LIMIT
            &&& ms_of_beat(segs, rn.beat as int) <= ms_of_beat(segs, rn.beat + hold_beats)
            &&& ms_of_beat(segs, rn.beat + hold_beats) <= TIME_LIMIT
        },
        _ => ms_of_beat(segs, rn.beat as int) <= TIME_LIMIT,
    }
    &&& 0 < rn.speed <= SPEED_LIMIT
    &&& -VALUE_LIMIT <= rn.x <= VALUE_LIMIT
}

/// The normalized form of one raw note.
pub open spec fn conv_note(segs: Seq<BpmSegment>, rn: RawNote) -> Note {
    Note {
        time: ms_of_beat(segs, rn.beat as int) as i64,
        kind: match rn.kind {
            RawNoteKind::Tap => NoteKind::Tap,
            RawNoteKind::Drag => NoteKind::Drag,
            RawNoteKind::Flick => NoteKind::Flick,
            RawNoteKind::Hold { hold_beats } => NoteKind::Hold {
                hold_time: (ms_of_beat(segs, rn.beat + hold_beats) - ms_of_beat(
                    segs,
                    rn.beat as int,
                )) as i64,
            },
        },
        speed: rn.speed,
        x: rn.x,
        is_above: rn.is_above,
    }
}

/// The normalized notes of line `li`, in source order.
pub open spec fn conv_line_notes(segs: Seq<BpmSegment>, notes: Seq<RawNote>, li: int) -> Seq<Note>
    decreases notes.len(),
{
    if notes.len() == 0 {
        Seq::empty()
    } else {
        let rest = conv_line_notes(segs, notes.drop_last(), li);
        if notes.last().line_index == li {
            rest.push(conv_note(segs, notes.last()))
        } else {
            rest
        }
    }
}

/// Sum of the per-line normalized note counts over lines `0..n`.
pub open spec fn line_notes_sum(segs: Seq<BpmSegment>, notes: Seq<RawNote>, n: int) -> int
    decreases n,
{
    if n <= 0 {
        0
    } else {
        line_notes_sum(segs, notes, n - 1) + conv_line_notes(segs, notes, n - 1).len()
    }
}

proof fn lemma_line_notes_sum_empty(segs: Seq<BpmSegment>, notes: Seq<RawNote>, n: int)
    requires
        notes.len() == 0,
    ensures
        line_notes_sum(segs, notes, n) == 0,
    decreases n,
{
    if n > 0 {
        lemma_line_notes_sum_empty(segs, notes, n - 1);
    }
}

proof fn lemma_line_notes_sum_step(segs: Seq<BpmSegment>, notes: Seq<RawNote>, n: int)
    requires
        notes.len() > 0,
        0 <= notes.last().line_index < n,
    ensures
        line_notes_sum(segs, notes, n) == line_notes_sum(segs, notes.drop_last(), n) + 1,
    decreases n,
{
    if n > 0 {
        if notes.last().line_index == n - 1 {
            lemma_line_notes_sum_same(segs, notes, n - 1);
        } else {
            lemma_line_notes_sum_step(segs, notes, n - 1);
        }
    }
}

proof fn lemma_line_notes_sum_same(segs: Seq<BpmSegment>, notes: Seq<RawNote>, n: int)
    requires
        notes.len() > 0,
        notes.last().line_index >= n,
    ensures
        line_notes_sum(segs, notes, n) == line_notes_sum(segs, notes.drop_last(), n),
    decreases n,
{
    if n > 0 {
        lemma_line_notes_sum_same(segs, notes, n - 1);
    }
}

/// Every note lands in exactly one line, so the per-line counts sum to the
/// note total.
proof fn lemma_line_notes_sum_total(segs: Seq<BpmSegment>, notes: Seq<RawNote>, n: int)
    requires
        forall|k: int| 0 <= k < notes.len() ==> 0 <= (#[trigger] notes[k]).line_index < n,
    ensures
        line_notes_sum(segs, notes, n) == notes.len(),
    decreases notes.len(),
{
    if notes.len() == 0 {
        lemma_line_notes_sum_empty(segs, notes, n);
    } else {
        lemma_line_notes_sum_step(segs, notes, n);
        lemma_line_notes_sum_total(segs, notes.drop_last(), n);
    }
}

/// Time-sortedness of a note sequence.
pub open spec fn notes_sorted(s: Seq<Note>) -> bool {
    forall|i: int, j: int| 0 <= i <= j < s.len() ==> s[i].time <= s[j].time
}

/// Insert a note into a time-sorted vector, keeping it sorted; the contents
/// as a multiset gain exactly the new note.
fn insert_sorted(v: &mut Vec<Note>, n: Note)
    requires
        notes_sorted(old(v)@),
        old(v)@.len() < NOTE_LIMIT,
    ensures
        final(v)@.len() == old(v)@.len() + 1,
        notes_sorted(final(v)@),
        final(v)@.to_multiset() == old(v)@.to_multiset().insert(n),
        forall|k: int|
            0 <= k < final(v)@.len() ==> (#[trigger] final(v)@[k] == n || old(v)@.contains(
                final(v)@[k],
            )),
{
    broadcast use group_to_multiset_ensures;

    let mut j: usize = v.len();
    while j > 0 && v[j - 1].time > n.time
        invariant
            notes_sorted(v@),
            0 <= j <= v@.len(),
            forall|k: int| j <= k < v@.len() ==> (#[trigger] v@[k]).time > n.time,
        decreases j,
    {
        j = j - 1;
    }
    let ghost before = v@;
    v.insert(j, n);
    proof {
        before.insert_ensures(j as int, n);
        assert(v@.to_multiset() == before.to_multiset().insert(n));
        assert forall|a: int, b: int| 0 <= a <= b < v@.len() implies v@[a].time <= v@[b].time by {
            assert(forall|k: int| 0 <= k < j ==> (#[trigger] before[k]).time <= n.time);
        }
    }
}

// ---------------------------------------------------------------------------
// Normalization
// ---------------------------------------------------------------------------

/// A raw line is usable when each of its four event lists is.
pub open spec fn raw_line_ok(segs: Seq<BpmSegment>, rl: RawLine) -> bool {
    &&& raw_events_ok(segs, rl.event_x@)
    &&& raw_events_ok(segs, rl.event_y@)
    &&& raw_events_ok(segs, rl.event_rotation@)
    &&& raw_events_ok(segs, rl.event_opacity@)
}

/// A raw chart that normalizes successfully: a usable BPM table, ranges in
/// bounds, every event list usable, and every note on an existing line with
/// fields in range.
pub open spec fn raw_ok(raw: RawChart) -> bool {
    &&& bpm_list_ok(raw.bpm_list@)
    &&& 0 < raw.track_length <= TIME_LIMIT
    &&& -TIME_LIMIT <= raw.offset <= TIME_LIMIT
    &&& raw.notes@.len() <= NOTE_LIMIT
    &&& forall|li: int|
        0 <= li < raw.lines@.len() ==> raw_line_ok(raw.bpm_list@, #[trigger] raw.lines@[li])
    &&& forall|k: int|
        0 <= k < raw.notes@.len() ==> raw_note_ok(
            raw.bpm_list@,
            raw.lines@.len() as int,
            #[trigger] raw.notes@[k],
        )
}

/// The normalized judge line `li`.
pub open spec fn conv_line_ok(raw: RawChart, li: int, cl: JudgeLine) -> bool {
    let segs = raw.bpm_list@;
    let rl = raw.lines@[li];
    &&& cl.event_x@ == conv_events(segs, rl.event_x@, 0, raw.track_length)
    &&& cl.event_y@ == conv_events(segs, rl.event_y@, 0, raw.track_length)
    &&& cl.event_rotation@ == conv_events(segs, rl.event_rotation@, 0, raw.track_length)
    &&& cl.event_opacity@ == conv_events(segs, rl.event_opacity@, DEFAULT_OPACITY, raw.track_length)
    &&& cl.notes@.to_multiset() == conv_line_notes(segs, raw.notes@, li).to_multiset()
    &&& notes_sorted(cl.notes@)
}

/// Normalize a raw chart: convert beats to milliseconds, assign each note to
/// its judge line and sort by time, validate every event list and synthesize
/// full-coverage defaults for omitted ones. Succeeds exactly on usable raw
/// charts and never yields a partially-converted chart: the result is
/// well-formed, keeps the offset and track length, holds every source note
/// on the line its index names, and nothing else.
#[verifier::rlimit(100)]
pub fn normalize(raw: &RawChart) -> (r: Result<Chart, ParseError>)
    ensures
        r is Ok <==> raw_ok(*raw),
        (match r {
            Result::Ok(c) => {
                &&& c.wf()
                &&& c.offset == raw.offset
                &&& c.track_length == raw.track_length
                &&& c.lines@.len() == raw.lines@.len()
                &&& forall|li: int|
                    0 <= li < c.lines@.len() ==> conv_line_ok(*raw, li, #[trigger] c.lines@[li])
                &&& c.total_notes() == raw.notes@.len()
            },
            Result::Err(_) => true,
        }),
{
    if !check_bpm_list(&raw.bpm_list) {
        return Err(ParseError::Malformed);
    }
    if !(0 < raw.track_length && raw.track_length <= TIME_LIMIT) {
        return Err(ParseError::Malformed);
    }
    if !(-TIME_LIMIT <= raw.offset && raw.offset <= TIME_LIMIT) {
        return Err(ParseError::Malformed);
    }
    if raw.notes.len() > NOTE_LIMIT {
        return Err(ParseError::Malformed);
    }
    let line_total = raw.lines.len();

    // Distribute the notes onto their lines, keeping each bucket sorted.
    let mut buckets: Vec<Vec<Note>> = Vec::new();
    while buckets.len() < line_total
        invariant
            0 <= buckets@.len() <= line_total,
            forall|li: int| 0 <= li < buckets@.len() ==> (#[trigger] buckets@[li])@.len() == 0,
        decreases line_total - buckets@.len(),
    {
        buckets.push(Vec::new());
    }
    proof {
        assert(raw.notes@.take(0) =~= Seq::<RawNote>::empty());
        lemma_line_notes_sum_empty(raw.bpm_list@, raw.notes@.take(0), line_total as int);
        assert forall|li: int| 0 <= li < line_total implies conv_line_notes(
            raw.bpm_list@,
            raw.notes@.take(0),
            li,
        ) =~= Seq::<Note>::empty() by {
        }
        assert forall|li: int| 0 <= li < line_total implies (#[trigger] buckets@[li])@
            =~= Seq::<Note>::empty() by {
        }
    }
    let mut k: usize = 0;
    while k < raw.notes.len()
        invariant
            bpm_list_ok(raw.bpm_list@),
            raw.notes@.len() <= NOTE_LIMIT,
            0 <= k <= raw.notes@.len(),
            buckets@.len() == line_total,
            line_total == raw.lines@.len(),
            forall|i: int|
                0 <= i < k ==> raw_note_ok(raw.bpm_list@, line_total as int, #[trigger] raw.notes@[i]),
            forall|li: int|
                0 <= li < line_total ==> notes_sorted((#[trigger] buckets@[li])@),
            forall|li: int|
                0 <= li < line_total ==> (#[trigger] buckets@[li])@.to_multiset()
                    == conv_line_notes(raw.bpm_list@, raw.notes@.take(k as int), li).to_multiset(),
            forall|li: int|
                0 <= li < line_total ==> (#[trigger] buckets@[li])@.len() == conv_line_notes(
                    raw.bpm_list@,
                    raw.notes@.take(k as int),
                    li,
                ).len(),
            forall|li: int, i: int|
                0 <= li < line_total && 0 <= i < buckets@[li]@.len() ==> (
                #[trigger] buckets@[li]@[i]).wf(),
            line_notes_sum(raw.bpm_list@, raw.notes@.take(k as int), line_total as int)
                == k as int,
        decreases raw.notes@.len() - k,
    {
        broadcast use group_to_multiset_ensures;

        let rn = raw.notes[k];
        if !(rn.line_index < line_total && 0 <= rn.beat && rn.beat <= BEAT_LIMIT && 0 < rn.speed
            && rn.speed <= SPEED_LIMIT && -VALUE_LIMIT <= rn.x && rn.x <= VALUE_LIMIT) {
            return Err(ParseError::Malformed);
        }
        let time = beat_to_ms(&raw.bpm_list, rn.beat);
        if time > TIME_LIMIT {
            return Err(ParseError::Malformed);
        }
        let kind: NoteKind = match rn.kind {
            RawNoteKind::Tap => NoteKind::Tap,
            RawNoteKind::Drag => NoteKind::Drag,
            RawNoteKind::Flick => NoteKind::Flick,
            RawNoteKind::Hold { hold_beats } => {
                if !(hold_beats >= 0 && hold_beats <= BEAT_LIMIT && rn.beat + hold_beats <= BEAT_LIMIT) {
                    return Err(ParseError::Malformed);
                }
                let end_ms = beat_to_ms(&raw.bpm_list, rn.beat + hold_beats);
                if !(time <= end_ms && end_ms <= TIME_LIMIT) {
                    return Err(ParseError::Malformed);
                }
                NoteKind::Hold { hold_time: end_ms - time }
            },
        };
        let note = Note { time, kind, speed: rn.speed, x: rn.x, is_above: rn.is_above };
        proof {
            assert(raw_note_ok(raw.bpm_list@, line_total as int, rn));
            assert(note == conv_note(raw.bpm_list@, rn));
            assert(note.wf());
            assert(raw.notes@.take(k as int + 1).drop_last() =~= raw.notes@.take(k as int));
            assert(raw.notes@.take(k as int + 1).last() == raw.notes@[k as int]);
            lemma_line_notes_sum_step(
                raw.bpm_list@,
                raw.notes@.take(k as int + 1),
                line_total as int,
            );
            assert forall|li: int| 0 <= li < line_total && li != rn.line_index implies
                conv_line_notes(raw.bpm_list@, raw.notes@.take(k as int + 1), li)
                    =~= conv_line_notes(raw.bpm_list@, raw.notes@.take(k as int), li) by {
            }
        }
        let ghost bucket_before = buckets@[rn.line_index as int]@;
        proof {
            assert(bucket_before.len() < NOTE_LIMIT) by {
                lemma_line_notes_prefix_len(
                    raw.bpm_list@,
                    raw.notes@,
                    k as int,
                    rn.line_index as int,
                );
            }
        }
        insert_sorted(&mut buckets[rn.line_index], note);
        k = k + 1;
    }
    proof {
        assert(raw.notes@.take(raw.notes@.len() as int) =~= raw.notes@);
    }
    let ghost buckets_done = buckets@;
    proof {
        assert(buckets_good(*raw, buckets_done));
    }

    // Convert each line's event lists and assemble the chart.
    let mut lines: Vec<JudgeLine> = Vec::new();
    let mut li: usize = 0;
    while li < line_total
        invariant
            bpm_list_ok(raw.bpm_list@),
            0 < raw.track_length <= TIME_LIMIT,
            0 <= li <= line_total,
            line_total == raw.lines@.len(),
            buckets@.len() == line_total,
            lines@.len() == li,
            buckets_good(*raw, buckets_done),
            raw.notes@.len() <= NOTE_LIMIT,
            forall|i: int| li <= i < line_total ==> #[trigger] buckets@[i] == buckets_done[i],
            forall|i: int|
                0 <= i < li ==> raw_line_ok(raw.bpm_list@, #[trigger] raw.lines@[i]),
            forall|i: int|
                0 <= i < li ==> (#[trigger] lines@[i]).wf() && conv_line_ok_at(
                    *raw,
                    i,
                    lines@[i],
                    buckets_done,
                ),
            crate::chart::total_notes_of(lines@) == buckets_prefix_len(buckets_done, li as int),
        decreases line_total - li,
    {
        let converted_x = match convert_events(&raw.bpm_list, &raw.lines[li].event_x, 0, raw.track_length) {
            Result::Ok(v) => v,
            Result::Err(e) => {
                return Err(e);
            },
        };
        let converted_y = match convert_events(&raw.bpm_list, &raw.lines[li].event_y, 0, raw.track_length) {
            Result::Ok(v) => v,
            Result::Err(e) => {
                return Err(e);
            },
        };
        let converted_rot = match convert_events(
            &raw.bpm_list,
            &raw.lines[li].event_rotation,
            0,
            raw.track_length,
        ) {
            Result::Ok(v) => v,
            Result::Err(e) => {
                return Err(e);
            },
        };
        let converted_op = match convert_events(
            &raw.bpm_list,
            &raw.lines[li].event_opacity,
            DEFAULT_OPACITY,
            raw.track_length,
        ) {
            Result::Ok(v) => v,
            Result::Err(e) => {
                return Err(e);
            },
        };
        let mut taken: Vec<Note> = Vec::new();
        core::mem::swap(&mut taken, &mut buckets[li]);
        let line = JudgeLine {
            notes: taken,
            event_x: converted_x,
            event_y: converted_y,
            event_rotation: converted_rot,
            event_opacity: converted_op,
        };
        proof {
            assert(lines@.push(line).drop_last() =~= lines@);
        }
        lines.push(line);
        li = li + 1;
    }
    let chart = Chart { offset: raw.offset, track_length: raw.track_length, lines };
    proof {
        assert(raw_ok(*raw));
        lemma_buckets_prefix_total(
            raw.bpm_list@,
            raw.notes@,
            buckets_done,
            line_total as int,
        );
        lemma_line_notes_sum_total(raw.bpm_list@, raw.notes@, line_total as int);
        assert(chart.wf());
    }
    Ok(chart)
}

/// The finished buckets: one per line, each sorted, holding exactly the
/// line's normalized notes, every entry well-formed.
pub open spec fn buckets_good(raw: RawChart, buckets: Seq<Vec<Note>>) -> bool {
    &&& buckets.len() == raw.lines@.len()
    &&& forall|li: int| 0 <= li < buckets.len() ==> notes_sorted((#[trigger] buckets[li])@)
    &&& forall|li: int|
        0 <= li < buckets.len() ==> (#[trigger] buckets[li])@.to_multiset() == conv_line_notes(
            raw.bpm_list@,
            raw.notes@,
            li,
        ).to_multiset()
    &&& forall|li: int|
        0 <= li < buckets.len() ==> (#[trigger] buckets[li])@.len() == conv_line_notes(
            raw.bpm_list@,
            raw.notes@,
            li,
        ).len()
    &&& forall|li: int, i: int|
        0 <= li < buckets.len() && 0 <= i < buckets[li]@.len() ==> (
        #[trigger] buckets[li]@[i]).wf()
}

/// The normalized judge line `li`, phrased over the finished buckets.
pub open spec fn conv_line_ok_at(raw: RawChart, li: int, cl: JudgeLine, buckets: Seq<Vec<Note>>) -> bool {
    &&& conv_line_ok(raw, li, cl)
    &&& cl.notes@ == buckets[li]@
}

/// Sum of the bucket lengths over lines `0..n`.
pub open spec fn buckets_prefix_len(buckets: Seq<Vec<Note>>, n: int) -> int
    decreases n,
{
    if n <= 0 {
        0
    } else {
        buckets_prefix_len(buckets, n - 1) + buckets[n - 1]@.len()
    }
}

/// With every bucket holding its line's normalized notes, the bucket lengths
/// sum like the per-line counts.
proof fn lemma_buckets_prefix_total(
    segs: Seq<BpmSegment>,
    notes: Seq<RawNote>,
    buckets: Seq<Vec<Note>>,
    n: int,
)
    requires
        forall|li: int|
            0 <= li < n ==> (#[trigger] buckets[li])@.len() == conv_line_notes(segs, notes, li).len(),
    ensures
        buckets_prefix_len(buckets, n) == line_notes_sum(segs, notes, n),
    decreases n,
{
    if n > 0 {
        lemma_buckets_prefix_total(segs, notes, buckets, n - 1);
    }
}

/// A bucket never outgrows the note total: its contents count a subset of
/// the first `k` notes.
proof fn lemma_line_notes_prefix_len(segs: Seq<BpmSegment>, notes: Seq<RawNote>, k: int, li: int)
    requires
        0 <= k <= notes.len(),
    ensures
        conv_line_notes(segs, notes.take(k), li).len() <= k,
    decreases k,
{
    if k > 0 {
        assert(notes.take(k).drop_last() =~= notes.take(k - 1));
        lemma_line_notes_prefix_len(segs, notes, k - 1, li);
    }
}

} // verus!
