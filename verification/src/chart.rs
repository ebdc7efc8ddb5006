//! Timeline model: the normalized chart data (judge lines, notes, motion
//! events) and the pure functions that evaluate a line's transform and a
//! note's fall progress at an arbitrary time.
//!
//! All chart times are integer milliseconds; positions, rotations and
//! opacities are integer fixed-point values in thousandths of a unit.
//! Easing progress runs over `PROGRESS_UNIT` subdivisions of an interval.

use vstd::prelude::*;
use vstd::arithmetic::div_mod::{lemma_div_is_ordered, lemma_div_multiples_vanish, lemma_div_pos_is_pos};
use vstd::arithmetic::mul::{lemma_mul_inequality, lemma_mul_nonnegative};

verus! {

/// Largest magnitude of any chart time, in milliseconds.
pub const TIME_LIMIT: i64 = 1_000_000_000;

/// Largest magnitude of any event value (position, rotation, opacity).
pub const VALUE_LIMIT: i64 = 1_000_000_000;

/// Number of progress steps an event interval is divided into.
pub const PROGRESS_UNIT: i64 = 1_000_000;

/// Largest note speed multiplier, in thousandths.
pub const SPEED_LIMIT: i64 = 100_000;

/// Largest number of notes a chart may hold.
pub const NOTE_LIMIT: usize = 1_000_000;

/// Easing curve applied to an event's progress within its interval.
#[derive(Clone, Copy, PartialEq, Eq, Structural, Debug)]
pub enum Easing {
    Linear,
    QuadIn,
    QuadOut,
}

/// One keyframe interval of a judge line: over `[start_time, end_time)` the
/// controlled quantity moves from `start_value` to `end_value` along `easing`.
#[derive(Clone, Copy, PartialEq, Eq, Structural, Debug)]
pub struct Event {
    pub start_time: i64,
    pub end_time: i64,
    pub start_value: i64,
    pub end_value: i64,
    pub easing: Easing,
}

impl Event {
    pub open spec fn wf(self) -> bool {
        &&& -TIME_LIMIT <= self.start_time
        &&& self.start_time < self.end_time
        &&& self.end_time <= TIME_LIMIT
        &&& -VALUE_LIMIT <= self.start_value <= VALUE_LIMIT
        &&& -VALUE_LIMIT <= self.end_value <= VALUE_LIMIT
    }
}

/// Eased progress: maps a raw progress `p` in `[0, PROGRESS_UNIT]` to the
/// eased progress in the same range.
pub open spec fn eased_progress(e: Easing, p: int) -> int {
    match e {
        Easing::Linear => p,
        Easing::QuadIn => (p * p) / (PROGRESS_UNIT as int),
        Easing::QuadOut => PROGRESS_UNIT - ((PROGRESS_UNIT - p) * (PROGRESS_UNIT - p)) / (
        PROGRESS_UNIT as int),
    }
}

pub proof fn lemma_eased_progress_bounds(e: Easing, p: int)
    requires
        0 <= p <= PROGRESS_UNIT,
    ensures
        0 <= eased_progress(e, p) <= PROGRESS_UNIT,
{
    let u = PROGRESS_UNIT as int;
    lemma_quad_term_bounds(p);
    lemma_quad_term_bounds(u - p);
}

/// For `0 <= q <= PROGRESS_UNIT`, the quadratic term `q * q / PROGRESS_UNIT`
/// stays within `[0, PROGRESS_UNIT]`.
proof fn lemma_quad_term_bounds(q: int)
    requires
        0 <= q <= PROGRESS_UNIT,
    ensures
        0 <= (q * q) / (PROGRESS_UNIT as int) <= PROGRESS_UNIT,
{
    let u = PROGRESS_UNIT as int;
    lemma_mul_nonnegative(q, q);
    lemma_div_pos_is_pos(q * q, u);
    assert(q * q <= u * q) by {
        lemma_mul_inequality(q, u, q);
    }
    lemma_mul_inequality(q, u, u);
    lemma_div_is_ordered(q * q, u * u, u);
    lemma_div_multiples_vanish(u, u);
    assert(u * u / u == u);
}

/// Raw progress of time `t` through the interval of `e`, in
/// `[0, PROGRESS_UNIT]` when `start_time <= t <= end_time`.
pub open spec fn raw_progress(e: Event, t: int) -> int {
    ((t - e.start_time) * PROGRESS_UNIT) / (e.end_time - e.start_time)
}

pub proof fn lemma_raw_progress_bounds(e: Event, t: int)
    requires
        e.wf(),
        e.start_time <= t <= e.end_time,
    ensures
        0 <= raw_progress(e, t) <= PROGRESS_UNIT,
        t == e.start_time ==> raw_progress(e, t) == 0,
        t == e.end_time ==> raw_progress(e, t) == PROGRESS_UNIT,
{
    let u = PROGRESS_UNIT as int;
    let d = e.end_time - e.start_time;
    lemma_mul_nonnegative(t - e.start_time, u);
    lemma_div_pos_is_pos((t - e.start_time) * u, d);
    lemma_mul_inequality(t - e.start_time, d, u);
    lemma_div_is_ordered((t - e.start_time) * u, d * u, d);
    lemma_div_multiples_vanish(u, d);
    assert(d * u / d == u);
}

/// Interpolated value of event `e` at a time strictly inside its interval.
pub open spec fn event_value_at(e: Event, t: int) -> int {
    let g = eased_progress(e.easing, raw_progress(e, t));
    let d = e.end_value - e.start_value;
    if d >= 0 {
        e.start_value + (d * g) / (PROGRESS_UNIT as int)
    } else {
        e.start_value - ((-d) * g) / (PROGRESS_UNIT as int)
    }
}

/// Value of event `e` at any time: times before the interval clamp to the
/// start value, times at or past its end clamp to the end value.
pub open spec fn event_clamped_value(e: Event, t: int) -> int {
    if t <= e.start_time {
        e.start_value as int
    } else if t >= e.end_time {
        e.end_value as int
    } else {
        event_value_at(e, t)
    }
}

/// The interpolated value never leaves the segment between the event's
/// start and end values.
pub proof fn lemma_event_value_bounds(e: Event, t: int)
    requires
        e.wf(),
        e.start_time <= t <= e.end_time,
    ensures
        event_value_at(e, t) >= if e.start_value <= e.end_value {
            e.start_value
        } else {
            e.end_value
        },
        event_value_at(e, t) <= if e.start_value <= e.end_value {
            e.end_value
        } else {
            e.start_value
        },
{
    let u = PROGRESS_UNIT as int;
    let p = raw_progress(e, t);
    lemma_raw_progress_bounds(e, t);
    let g = eased_progress(e.easing, p);
    lemma_eased_progress_bounds(e.easing, p);
    let d = e.end_value - e.start_value;
    if d >= 0 {
        lemma_scaled_delta_bounds(d, g);
    } else {
        lemma_scaled_delta_bounds(-d, g);
    }
}

/// For `d >= 0` and eased progress `g` in range, the scaled delta
/// `d * g / PROGRESS_UNIT` lies in `[0, d]`.
proof fn lemma_scaled_delta_bounds(d: int, g: int)
    requires
        d >= 0,
        0 <= g <= PROGRESS_UNIT,
    ensures
        0 <= (d * g) / (PROGRESS_UNIT as int) <= d,
{
    let u = PROGRESS_UNIT as int;
    lemma_mul_nonnegative(d, g);
    lemma_div_pos_is_pos(d * g, u);
    lemma_mul_inequality(g, u, d);
    assert(d * g == g * d) by {
        vstd::arithmetic::mul::lemma_mul_is_commutative(d, g);
    }
    lemma_div_is_ordered(g * d, u * d, u);
    lemma_div_multiples_vanish(d, u);
    assert(u * d / u == d);
}

/// Interpolation boundary exactness: evaluating an event by its easing
/// formula at the very start of its interval yields the start value, and at
/// the very end yields the end value, with no rounding residue.
pub proof fn lemma_interpolation_boundary_exact(e: Event)
    requires
        e.wf(),
    ensures
        event_value_at(e, e.start_time as int) == e.start_value,
        event_value_at(e, e.end_time as int) == e.end_value,
        event_clamped_value(e, e.start_time as int) == e.start_value,
        event_clamped_value(e, e.end_time as int) == e.end_value,
{
    let u = PROGRESS_UNIT as int;
    lemma_raw_progress_bounds(e, e.start_time as int);
    lemma_raw_progress_bounds(e, e.end_time as int);
    assert(eased_progress(e.easing, 0) == 0) by {
        assert(0int * 0int == 0) by {
            vstd::arithmetic::mul::lemma_mul_basics(0int);
        }
        lemma_div_multiples_vanish(0, u);
        lemma_div_multiples_vanish(u, u);
        assert(u * u / u == u);
    }
    assert(eased_progress(e.easing, u) == u) by {
        lemma_div_multiples_vanish(0, u);
        lemma_div_multiples_vanish(u, u);
        assert(u * u / u == u);
    }
    let d = e.end_value - e.start_value;
    lemma_div_multiples_vanish(0, u);
    if d >= 0 {
        assert(d * 0 == 0) by {
            vstd::arithmetic::mul::lemma_mul_basics(d);
        }
        assert(d * u / u == d) by {
            vstd::arithmetic::mul::lemma_mul_is_commutative(d, u);
            lemma_div_multiples_vanish(d, u);
        }
    } else {
        assert((-d) * 0 == 0) by {
            vstd::arithmetic::mul::lemma_mul_basics(-d);
        }
        assert((-d) * u / u == -d) by {
            vstd::arithmetic::mul::lemma_mul_is_commutative(-d, u);
            lemma_div_multiples_vanish(-d, u);
        }
    }
}

/// Executable easing application, exact to `eased_progress`.
pub fn apply_easing(e: Easing, p: i64) -> (r: i64)
    requires
        0 <= p <= PROGRESS_UNIT,
    ensures
        r == eased_progress(e, p as int),
        0 <= r <= PROGRESS_UNIT,
{
    proof {
        lemma_eased_progress_bounds(e, p as int);
    }
    match e {
        Easing::Linear => p,
        Easing::QuadIn => (p * p) / PROGRESS_UNIT,
        Easing::QuadOut => PROGRESS_UNIT - ((PROGRESS_UNIT - p) * (PROGRESS_UNIT - p))
            / PROGRESS_UNIT,
    }
}

/// A well-formed event list is nonempty and its intervals are time-sorted,
/// non-overlapping and contiguous: each event ends exactly where the next
/// begins, so together with boundary clamping the list covers all times.
#[verifier::opaque]
pub open spec fn events_wf(evs: Seq<Event>) -> bool {
    &&& evs.len() > 0
    &&& forall|i: int| 0 <= i < evs.len() ==> (#[trigger] evs[i]).wf()
    &&& forall|i: int|
        0 <= i < evs.len() - 1 ==> (#[trigger] evs[i]).end_time == evs[i + 1].start_time
}

/// Value a well-formed event list takes at time `t`: the clamped value of
/// the event whose interval covers `t` (the first event for earlier times,
/// the last for later ones).
#[verifier::opaque]
pub open spec fn track_value_at(evs: Seq<Event>, t: int) -> int
    decreases evs.len(),
{
    if evs.len() <= 1 || t < evs[0].end_time {
        event_clamped_value(evs[0], t)
    } else {
        track_value_at(evs.skip(1), t)
    }
}

/// In a well-formed list the interval start times are ordered.
proof fn lemma_events_starts_ordered(evs: Seq<Event>, i: int, j: int)
    requires
        events_wf(evs),
        0 <= i <= j < evs.len(),
    ensures
        evs[i].start_time <= evs[j].start_time,
        evs[i].end_time <= evs[j].end_time,
    decreases j - i,
{
    reveal(events_wf);
    if i < j {
        lemma_events_starts_ordered(evs, i + 1, j);
    }
}

/// The list value at `t` is the clamped value of entry `i`, whenever `t`
/// falls at or after the start of entry `i` (or `i` is the first entry) and
/// before the start of entry `i + 1` (or `i` is the last entry).
proof fn lemma_track_value_at_index(evs: Seq<Event>, t: int, i: int)
    requires
        events_wf(evs),
        0 <= i < evs.len(),
        i > 0 ==> evs[i].start_time <= t,
        i < evs.len() - 1 ==> t < evs[i + 1].start_time,
    ensures
        track_value_at(evs, t) == event_clamped_value(evs[i], t),
    decreases evs.len(),
{
    reveal(track_value_at);
    reveal(events_wf);
    if i == 0 {
        if evs.len() > 1 {
            assert(t < evs[1].start_time);
            assert(evs[0].end_time == evs[1].start_time);
        }
    } else {
        lemma_events_starts_ordered(evs, 0, i);
        assert(evs[0].end_time <= evs[i].start_time) by {
            if i > 1 {
                lemma_events_starts_ordered(evs, 1, i);
            }
        }
        assert(!(t < evs[0].end_time));
        let rest = evs.skip(1);
        assert(rest.len() == evs.len() - 1);
        assert(forall|k: int| 0 <= k < rest.len() ==> rest[k] == evs[k + 1]);
        lemma_track_value_at_index(rest, t, i - 1);
    }
}

/// Executable event-list evaluation: O(log n) binary search for the covering
/// interval, exact to `track_value_at`.
#[verifier::rlimit(100)]
pub fn eval_events(evs: &Vec<Event>, t: i64) -> (r: i64)
    requires
        events_wf(evs@),
    ensures
        r == track_value_at(evs@, t as int),
        -VALUE_LIMIT <= r <= VALUE_LIMIT,
{
    proof {
        reveal(events_wf);
    }
    // Find the greatest index whose event starts at or before `t`; if every
    // event starts after `t`, settle on index 0 and let clamping answer.
    let mut lo: usize = 0;
    let mut hi: usize = evs.len() - 1;
    while lo < hi
        invariant
            events_wf(evs@),
            0 <= lo <= hi < evs@.len(),
            lo > 0 ==> evs@[lo as int].start_time <= t,
            hi < evs@.len() - 1 ==> t < evs@[hi + 1].start_time,
        decreases hi - lo,
    {
        proof {
            reveal(events_wf);
        }
        let mid = hi - (hi - lo) / 2;
        if evs[mid].start_time <= t {
            lo = mid;
        } else {
            hi = mid - 1;
        }
    }
    proof {
        reveal(events_wf);
        lemma_track_value_at_index(evs@, t as int, lo as int);
    }
    eval_event(&evs[lo], t)
}

/// Executable event evaluation with boundary clamping, exact to
/// `event_clamped_value`.
pub fn eval_event(e: &Event, t: i64) -> (r: i64)
    requires
        e.wf(),
    ensures
        r == event_clamped_value(*e, t as int),
        -VALUE_LIMIT <= r <= VALUE_LIMIT,
{
    if t <= e.start_time {
        e.start_value
    } else if t >= e.end_time {
        e.end_value
    } else {
        proof {
            lemma_raw_progress_bounds(*e, t as int);
            lemma_event_value_bounds(*e, t as int);
        }
        let p = ((t - e.start_time) * PROGRESS_UNIT) / (e.end_time - e.start_time);
        let g = apply_easing(e.easing, p);
        let d = e.end_value - e.start_value;
        if d >= 0 {
            proof {
                lemma_scaled_delta_bounds(d as int, g as int);
            }
            e.start_value + (d * g) / PROGRESS_UNIT
        } else {
            proof {
                lemma_scaled_delta_bounds(-d as int, g as int);
            }
            e.start_value - ((-d) * g) / PROGRESS_UNIT
        }
    }
}

/// The kind of input a note demands. A hold additionally carries how long
/// the touch must be sustained past the note's own time, in milliseconds.
#[derive(Clone, Copy, PartialEq, Eq, Structural, Debug)]
pub enum NoteKind {
    Tap,
    Drag,
    Hold { hold_time: i64 },
    Flick,
}

/// A single timed input target. `time` is the chart time at which it crosses
/// its judge line, `x` its lane-relative offset, `speed` the fall-speed
/// multiplier in thousandths, and `is_above` which side of the line it
/// approaches from.
#[derive(Clone, Copy, PartialEq, Eq, Structural, Debug)]
pub struct Note {
    pub time: i64,
    pub kind: NoteKind,
    pub speed: i64,
    pub x: i64,
    pub is_above: bool,
}

impl Note {
    /// How long a touch must be sustained past `time`; zero for every kind
    /// but holds.
    pub open spec fn hold_len(self) -> int {
        match self.kind {
            NoteKind::Hold { hold_time } => hold_time as int,
            _ => 0,
        }
    }

    /// The chart time at which the note's demand on the player ends.
    pub open spec fn end_time(self) -> int {
        self.time + self.hold_len()
    }

    pub open spec fn wf(self) -> bool {
        &&& 0 <= self.time
        &&& self.hold_len() >= 0
        &&& self.end_time() <= TIME_LIMIT
        &&& 0 < self.speed <= SPEED_LIMIT
        &&& -VALUE_LIMIT <= self.x <= VALUE_LIMIT
    }

    /// The chart time at which the note's demand on the player ends, as a
    /// value.
    pub fn end_time_ms(&self) -> (r: i64)
        requires
            self.wf(),
        ensures
            r == self.end_time(),
    {
        match self.kind {
            NoteKind::Hold { hold_time } => self.time + hold_time,
            _ => self.time,
        }
    }

    /// Signed fall progress at time `t`: negative while the note is still
    /// approaching its line, zero exactly at `time`, positive afterwards,
    /// scaled by the note's speed (the result is in milliseconds times
    /// thousandths of the speed multiplier).
    pub fn fall_progress(&self, t: i64) -> (r: i64)
        requires
            self.wf(),
            -TIME_LIMIT <= t <= TIME_LIMIT,
        ensures
            r == (t - self.time) * self.speed,
    {
        proof {
            let d = t - self.time;
            assert(-200_000_000_000_000 <= d * self.speed <= 200_000_000_000_000)
                by (nonlinear_arith)
                requires
                    -2_000_000_000 <= d <= 2_000_000_000,
                    0 < self.speed <= 100_000,
            ;
        }
        (t - self.time) * self.speed
    }
}

/// A judge line's pose at one instant, as evaluated from its event lists.
#[derive(Clone, Copy, PartialEq, Eq, Structural, Debug)]
pub struct Transform {
    pub x: i64,
    pub y: i64,
    pub rotation: i64,
    pub opacity: i64,
}

/// A moving reference frame that notes travel relative to. It owns its notes
/// (sorted by time) and one well-formed event list per controlled quantity.
pub struct JudgeLine {
    pub notes: Vec<Note>,
    pub event_x: Vec<Event>,
    pub event_y: Vec<Event>,
    pub event_rotation: Vec<Event>,
    pub event_opacity: Vec<Event>,
}

impl JudgeLine {
    pub open spec fn wf(self) -> bool {
        &&& forall|i: int| 0 <= i < self.notes@.len() ==> (#[trigger] self.notes@[i]).wf()
        &&& forall|i: int, j: int|
            0 <= i <= j < self.notes@.len() ==> self.notes@[i].time <= self.notes@[j].time
        &&& events_wf(self.event_x@)
        &&& events_wf(self.event_y@)
        &&& events_wf(self.event_rotation@)
        &&& events_wf(self.event_opacity@)
    }

    /// Pure evaluation of the line's pose: position, rotation and opacity,
    /// each found by binary search over its event list.
    pub fn transform_at(&self, t: i64) -> (r: Transform)
        requires
            self.wf(),
        ensures
            r.x == track_value_at(self.event_x@, t as int),
            r.y == track_value_at(self.event_y@, t as int),
            r.rotation == track_value_at(self.event_rotation@, t as int),
            r.opacity == track_value_at(self.event_opacity@, t as int),
            -VALUE_LIMIT <= r.x <= VALUE_LIMIT,
            -VALUE_LIMIT <= r.y <= VALUE_LIMIT,
    {
        Transform {
            x: eval_events(&self.event_x, t),
            y: eval_events(&self.event_y, t),
            rotation: eval_events(&self.event_rotation, t),
            opacity: eval_events(&self.event_opacity, t),
        }
    }
}

/// Total number of notes across a sequence of judge lines.
pub open spec fn total_notes_of(lines: Seq<JudgeLine>) -> int
    decreases lines.len(),
{
    if lines.len() == 0 {
        0
    } else {
        total_notes_of(lines.drop_last()) + lines.last().notes@.len()
    }
}

/// The full normalized song timeline: judge lines with their notes and
/// events, the global audio offset, and the song length, all in
/// milliseconds.
pub struct Chart {
    pub offset: i64,
    pub track_length: i64,
    pub lines: Vec<JudgeLine>,
}

impl Chart {
    pub open spec fn line_count(self) -> int {
        self.lines@.len() as int
    }

    pub open spec fn notes_len(self, li: int) -> int {
        self.lines@[li].notes@.len() as int
    }

    pub open spec fn note_at(self, li: int, ni: int) -> Note {
        self.lines@[li].notes@[ni]
    }

    pub open spec fn valid_index(self, li: int, ni: int) -> bool {
        0 <= li < self.line_count() && 0 <= ni < self.notes_len(li)
    }

    pub open spec fn total_notes(self) -> int {
        total_notes_of(self.lines@)
    }

    pub open spec fn wf(self) -> bool {
        &&& forall|i: int| 0 <= i < self.lines@.len() ==> (#[trigger] self.lines@[i]).wf()
        &&& 0 < self.track_length <= TIME_LIMIT
        &&& -TIME_LIMIT <= self.offset <= TIME_LIMIT
        &&& self.total_notes() <= NOTE_LIMIT
    }
}

/// The note total over any prefix of lines is bounded by the total over all
/// of them, and every line's own note count is part of that total.
pub proof fn lemma_total_notes_parts(lines: Seq<JudgeLine>, li: int)
    requires
        0 <= li < lines.len(),
    ensures
        total_notes_of(lines) >= total_notes_of(lines.take(li)) + lines[li].notes@.len(),
        total_notes_of(lines) >= 0,
    decreases lines.len(),
{
    lemma_total_notes_nonneg(lines);
    if li == lines.len() - 1 {
        assert(lines.take(li) =~= lines.drop_last());
    } else {
        lemma_total_notes_parts(lines.drop_last(), li);
        assert(lines.drop_last().take(li) =~= lines.take(li));
    }
}

pub proof fn lemma_total_notes_nonneg(lines: Seq<JudgeLine>)
    ensures
        total_notes_of(lines) >= 0,
    decreases lines.len(),
{
    if lines.len() > 0 {
        lemma_total_notes_nonneg(lines.drop_last());
    }
}

} // verus!
