//! The judgment engine: a per-frame state machine that matches live touch
//! input against pending notes, classifies hits, updates combo and counts,
//! and produces transient feedback entities for notes judged bad or missed.
//!
//! Every public operation is specified against a ghost model
//! ([`EngineState`], [`spec_update`]) so that a whole frame's effect is a
//! mathematical function of the previous state, the chart time and the
//! frame's touches — the engine is deterministic and replayable.

use vstd::prelude::*;
use crate::chart::{Chart, Note, NoteKind, track_value_at, NOTE_LIMIT, TIME_LIMIT, VALUE_LIMIT};

verus! {

/// Half-width of the window, in milliseconds, inside which a touch scores a
/// perfect judgment.
pub const PERFECT_WINDOW: i64 = 80;

/// Half-width of the good-judgment window. Notes silently miss once chart
/// time passes `note.time + GOOD_WINDOW`.
pub const GOOD_WINDOW: i64 = 180;

/// Half-width of the widest acceptance window: a touch farther than this
/// from every pending note matches nothing. The windows are ordered
/// `PERFECT_WINDOW < GOOD_WINDOW < BAD_WINDOW`; the matcher depends on it.
pub const BAD_WINDOW: i64 = 220;

/// Half-width of a note's horizontal hit region, in thousandths of a unit.
pub const X_TOLERANCE: i64 = 210;

/// How long a feedback entity stays alive, in milliseconds.
pub const BAD_NOTE_DURATION: i64 = 500;

/// Phase of one touch/pointer event.
#[derive(Clone, Copy, PartialEq, Eq, Structural, Debug)]
pub enum TouchPhase {
    Started,
    Moved,
    Ended,
}

/// One touch/pointer event: an identity stable for the finger's lifetime, a
/// phase, and a position in thousandths of a unit.
#[derive(Clone, Copy, PartialEq, Eq, Structural, Debug)]
pub struct Touch {
    pub id: u64,
    pub phase: TouchPhase,
    pub x: i64,
    pub y: i64,
}

/// Final classification of one note.
#[derive(Clone, Copy, PartialEq, Eq, Structural, Debug)]
pub enum Judgment {
    Perfect,
    Good,
    Bad,
    Miss,
}

/// Lifecycle state of one note. Transitions are one-way: `Unjudged` leads to
/// a final state for taps, drags and flicks, while holds pass through
/// `HoldInProgress` (remembering which touch they track) before finishing.
#[derive(Clone, Copy, PartialEq, Eq, Structural, Debug)]
pub enum NoteState {
    Unjudged,
    PerfectHit,
    GoodHit,
    Bad,
    Miss,
    HoldInProgress { touch_id: u64 },
    HoldCompleted,
    HoldBroken,
}

/// The judgment a settled state counts as, or `None` while the note is still
/// pending or mid-hold. Completed holds count as perfect, broken ones as bad.
pub open spec fn settled_kind(st: NoteState) -> Option<Judgment> {
    match st {
        NoteState::Unjudged => None,
        NoteState::HoldInProgress { .. } => None,
        NoteState::PerfectHit => Some(Judgment::Perfect),
        NoteState::HoldCompleted => Some(Judgment::Perfect),
        NoteState::GoodHit => Some(Judgment::Good),
        NoteState::Bad => Some(Judgment::Bad),
        NoteState::HoldBroken => Some(Judgment::Bad),
        NoteState::Miss => Some(Judgment::Miss),
    }
}

pub open spec fn is_settled(st: NoteState) -> bool {
    settled_kind(st) is Some
}

/// A transient feedback entity, created when a note is judged bad or misses;
/// it carries where and when it appeared and self-expires.
#[derive(Clone, Copy, PartialEq, Eq, Structural, Debug)]
pub struct BadNote {
    pub time: i64,
    pub x: i64,
    pub y: i64,
    pub kind: NoteKind,
}

impl BadNote {
    /// Whether the feedback animation is over at chart time `t`.
    pub fn expired(&self, t: i64) -> (r: bool)
        requires
            -TIME_LIMIT <= self.time <= TIME_LIMIT,
        ensures
            r == (t >= self.time + BAD_NOTE_DURATION),
    {
        t >= self.time + BAD_NOTE_DURATION
    }
}

/// Ghost model of the engine's session state.
pub ghost struct EngineState {
    /// One lifecycle state per note, parallel to the chart's lines.
    pub states: Seq<Seq<NoteState>>,
    /// Consecutive non-bad/miss judgments.
    pub combo: int,
    /// Largest combo reached so far.
    pub max_combo: int,
    pub perfect: int,
    pub good: int,
    pub bad: int,
    pub miss: int,
    /// Total number of notes of the chart this session plays.
    pub note_total: int,
    /// When set, every note is judged perfect at its nominal time and input
    /// is ignored.
    pub autoplay: bool,
}

/// Ghost model of one frame's full effect: the engine state together with
/// the feedback entities emitted so far.
pub ghost struct FrameTrace {
    pub eng: EngineState,
    pub emitted: Seq<BadNote>,
}

/// View of a vector of per-line state vectors as a sequence of sequences.
pub open spec fn states_view(sts: Seq<Vec<NoteState>>) -> Seq<Seq<NoteState>> {
    Seq::new(sts.len(), |i: int| sts[i]@)
}

/// Number of notes of line `sts` settled as judgment `j`.
pub open spec fn count_in_line(sts: Seq<NoteState>, j: Judgment) -> int
    decreases sts.len(),
{
    if sts.len() == 0 {
        0
    } else {
        count_in_line(sts.drop_last(), j) + if settled_kind(sts.last()) == Some(j) {
            1int
        } else {
            0int
        }
    }
}

/// Number of notes across all lines settled as judgment `j`.
pub open spec fn count_states(states: Seq<Seq<NoteState>>, j: Judgment) -> int
    decreases states.len(),
{
    if states.len() == 0 {
        0
    } else {
        count_states(states.drop_last(), j) + count_in_line(states.last(), j)
    }
}

/// Number of settled notes of one line.
pub open spec fn settled_in_line(sts: Seq<NoteState>) -> int
    decreases sts.len(),
{
    if sts.len() == 0 {
        0
    } else {
        settled_in_line(sts.drop_last()) + if is_settled(sts.last()) {
            1int
        } else {
            0int
        }
    }
}

/// Number of settled notes across all lines.
pub open spec fn settled_total(states: Seq<Seq<NoteState>>) -> int
    decreases states.len(),
{
    if states.len() == 0 {
        0
    } else {
        settled_total(states.drop_last()) + settled_in_line(states.last())
    }
}

/// The state grid mirrors the chart's shape: one state per note.
pub open spec fn dims_ok(states: Seq<Seq<NoteState>>, chart: Chart) -> bool {
    &&& states.len() == chart.line_count()
    &&& forall|li: int| 0 <= li < states.len() ==> (#[trigger] states[li]).len() == chart.notes_len(li)
}

/// The tallies are exactly the per-judgment counts over the state grid, and
/// combo never exceeds the number of combo-scoring judgments.
pub open spec fn counts_ok(e: EngineState) -> bool {
    &&& e.perfect == count_states(e.states, Judgment::Perfect)
    &&& e.good == count_states(e.states, Judgment::Good)
    &&& e.bad == count_states(e.states, Judgment::Bad)
    &&& e.miss == count_states(e.states, Judgment::Miss)
    &&& 0 <= e.combo
    &&& e.combo <= e.perfect + e.good
    &&& e.combo <= e.max_combo
    &&& e.max_combo <= e.perfect + e.good
}

/// Record one judgment: perfect and good extend the combo, bad and miss
/// reset it to zero; the matching tally gains one.
pub open spec fn register_eng(e: EngineState, j: Judgment) -> EngineState {
    let c = if j == Judgment::Perfect || j == Judgment::Good {
        e.combo + 1
    } else {
        0int
    };
    EngineState {
        combo: c,
        max_combo: if c > e.max_combo {
            c
        } else {
            e.max_combo
        },
        perfect: e.perfect + if j == Judgment::Perfect {
            1int
        } else {
            0int
        },
        good: e.good + if j == Judgment::Good {
            1int
        } else {
            0int
        },
        bad: e.bad + if j == Judgment::Bad {
            1int
        } else {
            0int
        },
        miss: e.miss + if j == Judgment::Miss {
            1int
        } else {
            0int
        },
        ..e
    }
}

/// Replace the state of note `ni` of line `li`.
pub open spec fn set_state(e: EngineState, li: int, ni: int, st: NoteState) -> EngineState {
    EngineState { states: e.states.update(li, e.states[li].update(ni, st)), ..e }
}

// ---------------------------------------------------------------------------
// Counting lemmas
// ---------------------------------------------------------------------------

proof fn lemma_count_in_line_update(sts: Seq<NoteState>, ni: int, st: NoteState, j: Judgment)
    requires
        0 <= ni < sts.len(),
    ensures
        count_in_line(sts.update(ni, st), j) == count_in_line(sts, j) - (
        if settled_kind(sts[ni]) == Some(j) {
            1int
        } else {
            0int
        }) + (if settled_kind(st) == Some(j) {
            1int
        } else {
            0int
        }),
    decreases sts.len(),
{
    let upd = sts.update(ni, st);
    if ni == sts.len() - 1 {
        assert(upd.drop_last() =~= sts.drop_last());
    } else {
        assert(upd.last() == sts.last());
        assert(upd.drop_last() =~= sts.drop_last().update(ni, st));
        lemma_count_in_line_update(sts.drop_last(), ni, st, j);
    }
}

proof fn lemma_count_states_update(
    states: Seq<Seq<NoteState>>,
    li: int,
    ni: int,
    st: NoteState,
    j: Judgment,
)
    requires
        0 <= li < states.len(),
        0 <= ni < states[li].len(),
    ensures
        count_states(states.update(li, states[li].update(ni, st)), j) == count_states(states, j)
            - (if settled_kind(states[li][ni]) == Some(j) {
            1int
        } else {
            0int
        }) + (if settled_kind(st) == Some(j) {
            1int
        } else {
            0int
        }),
    decreases states.len(),
{
    let upd = states.update(li, states[li].update(ni, st));
    if li == states.len() - 1 {
        assert(upd.drop_last() =~= states.drop_last());
        assert(upd.last() == states[li].update(ni, st));
        lemma_count_in_line_update(states[li], ni, st, j);
    } else {
        assert(upd.last() == states.last());
        assert(upd.drop_last() =~= states.drop_last().update(li, states[li].update(ni, st)));
        lemma_count_states_update(states.drop_last(), li, ni, st, j);
    }
}

proof fn lemma_line_counts_split(sts: Seq<NoteState>)
    ensures
        count_in_line(sts, Judgment::Perfect) + count_in_line(sts, Judgment::Good) + count_in_line(
            sts,
            Judgment::Bad,
        ) + count_in_line(sts, Judgment::Miss) == settled_in_line(sts),
        0 <= settled_in_line(sts) <= sts.len(),
        count_in_line(sts, Judgment::Perfect) >= 0,
        count_in_line(sts, Judgment::Good) >= 0,
        count_in_line(sts, Judgment::Bad) >= 0,
        count_in_line(sts, Judgment::Miss) >= 0,
    decreases sts.len(),
{
    if sts.len() > 0 {
        lemma_line_counts_split(sts.drop_last());
    }
}

proof fn lemma_counts_split(states: Seq<Seq<NoteState>>)
    ensures
        count_states(states, Judgment::Perfect) + count_states(states, Judgment::Good)
            + count_states(states, Judgment::Bad) + count_states(states, Judgment::Miss)
            == settled_total(states),
        settled_total(states) >= 0,
        count_states(states, Judgment::Perfect) >= 0,
        count_states(states, Judgment::Good) >= 0,
        count_states(states, Judgment::Bad) >= 0,
        count_states(states, Judgment::Miss) >= 0,
    decreases states.len(),
{
    if states.len() > 0 {
        lemma_counts_split(states.drop_last());
        lemma_line_counts_split(states.last());
    }
}

/// The settled total is bounded by the chart's note total; it falls short by
/// at least one for every pending note, and reaches the total when every
/// note is settled.
proof fn lemma_settled_total_le(states: Seq<Seq<NoteState>>, chart: Chart)
    requires
        dims_ok(states, chart),
        states.len() == chart.lines@.len(),
    ensures
        settled_total(states) <= crate::chart::total_notes_of(chart.lines@),
    decreases states.len(),
{
    lemma_settled_total_le_gen(states, chart.lines@);
}

proof fn lemma_settled_total_le_gen(states: Seq<Seq<NoteState>>, lines: Seq<crate::chart::JudgeLine>)
    requires
        states.len() == lines.len(),
        forall|li: int|
            0 <= li < states.len() ==> (#[trigger] states[li]).len() == lines[li].notes@.len(),
    ensures
        settled_total(states) <= crate::chart::total_notes_of(lines),
    decreases states.len(),
{
    if states.len() > 0 {
        lemma_line_counts_split(states.last());
        assert(forall|li: int|
            0 <= li < states.len() - 1 ==> (#[trigger] states.drop_last()[li]).len()
                == lines.drop_last()[li].notes@.len());
        lemma_settled_total_le_gen(states.drop_last(), lines.drop_last());
    }
}

proof fn lemma_settled_in_line_without(sts: Seq<NoteState>, ni: int)
    requires
        0 <= ni < sts.len(),
        !is_settled(sts[ni]),
    ensures
        settled_in_line(sts) <= sts.len() - 1,
    decreases sts.len(),
{
    lemma_line_counts_split(sts.drop_last());
    if ni < sts.len() - 1 {
        lemma_settled_in_line_without(sts.drop_last(), ni);
    }
}

proof fn lemma_settled_total_without(
    states: Seq<Seq<NoteState>>,
    lines: Seq<crate::chart::JudgeLine>,
    li: int,
    ni: int,
)
    requires
        states.len() == lines.len(),
        forall|k: int|
            0 <= k < states.len() ==> (#[trigger] states[k]).len() == lines[k].notes@.len(),
        0 <= li < states.len(),
        0 <= ni < states[li].len(),
        !is_settled(states[li][ni]),
    ensures
        settled_total(states) <= crate::chart::total_notes_of(lines) - 1,
    decreases states.len(),
{
    if li == states.len() - 1 {
        lemma_settled_in_line_without(states.last(), ni);
        lemma_settled_total_le_gen(states.drop_last(), lines.drop_last());
    } else {
        lemma_line_counts_split(states.last());
        assert(forall|k: int|
            0 <= k < states.len() - 1 ==> (#[trigger] states.drop_last()[k]).len()
                == lines.drop_last()[k].notes@.len());
        lemma_settled_total_without(states.drop_last(), lines.drop_last(), li, ni);
    }
}

proof fn lemma_settled_in_line_full(sts: Seq<NoteState>)
    requires
        forall|ni: int| 0 <= ni < sts.len() ==> is_settled(#[trigger] sts[ni]),
    ensures
        settled_in_line(sts) == sts.len(),
    decreases sts.len(),
{
    if sts.len() > 0 {
        lemma_settled_in_line_full(sts.drop_last());
    }
}

proof fn lemma_settled_total_full(states: Seq<Seq<NoteState>>, lines: Seq<crate::chart::JudgeLine>)
    requires
        states.len() == lines.len(),
        forall|k: int|
            0 <= k < states.len() ==> (#[trigger] states[k]).len() == lines[k].notes@.len(),
        forall|li: int, ni: int|
            0 <= li < states.len() && 0 <= ni < states[li].len() ==> is_settled(
                #[trigger] states[li][ni],
            ),
    ensures
        settled_total(states) == crate::chart::total_notes_of(lines),
    decreases states.len(),
{
    if states.len() > 0 {
        lemma_settled_in_line_full(states.last());
        assert(forall|k: int|
            0 <= k < states.len() - 1 ==> (#[trigger] states.drop_last()[k]).len()
                == lines.drop_last()[k].notes@.len());
        lemma_settled_total_full(states.drop_last(), lines.drop_last());
    }
}

/// While any note is pending, the four tallies sum to strictly less than the
/// chart's note total; they never exceed it.
pub proof fn lemma_counts_bounded(e: EngineState, chart: Chart)
    requires
        counts_ok(e),
        dims_ok(e.states, chart),
    ensures
        e.perfect + e.good + e.bad + e.miss <= chart.total_notes(),
{
    lemma_counts_split(e.states);
    lemma_settled_total_le(e.states, chart);
}

/// Strict form: a pending note at `(li, ni)` keeps the sum at least one
/// short of the total.
pub proof fn lemma_counts_bounded_strict(e: EngineState, chart: Chart, li: int, ni: int)
    requires
        counts_ok(e),
        dims_ok(e.states, chart),
        0 <= li < e.states.len(),
        0 <= ni < e.states[li].len(),
        !is_settled(e.states[li][ni]),
    ensures
        e.perfect + e.good + e.bad + e.miss <= chart.total_notes() - 1,
{
    lemma_counts_split(e.states);
    lemma_settled_total_without(e.states, chart.lines@, li, ni);
}

/// Once every note is settled, the four tallies sum exactly to the chart's
/// note total.
pub proof fn lemma_counts_complete(e: EngineState, chart: Chart)
    requires
        counts_ok(e),
        dims_ok(e.states, chart),
        forall|li: int, ni: int|
            chart.valid_index(li, ni) ==> is_settled(#[trigger] e.states[li][ni]),
    ensures
        e.perfect + e.good + e.bad + e.miss == chart.total_notes(),
{
    lemma_counts_split(e.states);
    lemma_settled_total_full(e.states, chart.lines@);
}

// ---------------------------------------------------------------------------
// Frame model
// ---------------------------------------------------------------------------

/// Distance between two values on an axis (time or position).
pub open spec fn idist(a: int, b: int) -> int {
    if a >= b {
        a - b
    } else {
        b - a
    }
}

/// The feedback entity emitted for note `ni` of line `li` at chart time `t`:
/// it appears at the note's lane position under the line's current pose.
pub open spec fn bad_note_for(chart: Chart, li: int, ni: int, t: i64) -> BadNote {
    BadNote {
        time: t,
        x: (track_value_at(chart.lines@[li].event_x@, t as int) + chart.note_at(li, ni).x) as i64,
        y: track_value_at(chart.lines@[li].event_y@, t as int) as i64,
        kind: chart.note_at(li, ni).kind,
    }
}

/// One kind of whole-chart pass over the note states.
#[derive(Clone, Copy, PartialEq, Eq, Structural, Debug)]
pub enum SweepKind {
    /// Complete every in-progress hold whose duration has elapsed.
    HoldFinish,
    /// Miss every pending note whose good window has passed unanswered.
    MissLate,
    /// Autoplay: judge every pending note perfect once its time arrives.
    AutoPerfect,
    /// Break every in-progress hold tracking the touch that just lifted.
    EndTouch { id: u64 },
}

/// Whether a pass of kind `k` fires on a note in state `st`.
pub open spec fn sweep_hit(st: NoteState, n: Note, t: i64, k: SweepKind) -> bool {
    match k {
        SweepKind::HoldFinish => st is HoldInProgress && n.end_time() <= t,
        SweepKind::MissLate => st is Unjudged && n.time + GOOD_WINDOW < t,
        SweepKind::AutoPerfect => st is Unjudged && n.time <= t,
        SweepKind::EndTouch { id } => match st {
            NoteState::HoldInProgress { touch_id } => touch_id == id,
            _ => false,
        },
    }
}

/// The state a fired note moves to.
pub open spec fn sweep_target(k: SweepKind) -> NoteState {
    match k {
        SweepKind::HoldFinish => NoteState::HoldCompleted,
        SweepKind::MissLate => NoteState::Miss,
        SweepKind::AutoPerfect => NoteState::PerfectHit,
        SweepKind::EndTouch { .. } => NoteState::HoldBroken,
    }
}

/// The judgment a fired note registers.
pub open spec fn sweep_judgment(k: SweepKind) -> Judgment {
    match k {
        SweepKind::HoldFinish => Judgment::Perfect,
        SweepKind::MissLate => Judgment::Miss,
        SweepKind::AutoPerfect => Judgment::Perfect,
        SweepKind::EndTouch { .. } => Judgment::Bad,
    }
}

/// Whether a fired note emits a feedback entity.
pub open spec fn sweep_emits(k: SweepKind) -> bool {
    match k {
        SweepKind::MissLate => true,
        SweepKind::EndTouch { .. } => true,
        _ => false,
    }
}

/// Effect of a pass of kind `k` on the single note `ni` of line `li`.
pub open spec fn sweep_note(f: FrameTrace, chart: Chart, t: i64, k: SweepKind, li: int, ni: int) -> FrameTrace {
    if sweep_hit(f.eng.states[li][ni], chart.note_at(li, ni), t, k) {
        FrameTrace {
            eng: register_eng(set_state(f.eng, li, ni, sweep_target(k)), sweep_judgment(k)),
            emitted: if sweep_emits(k) {
                f.emitted.push(bad_note_for(chart, li, ni, t))
            } else {
                f.emitted
            },
        }
    } else {
        f
    }
}

/// Effect of the pass on the first `k_notes` notes of line `li`, in order.
pub open spec fn sweep_line(
    f: FrameTrace,
    chart: Chart,
    t: i64,
    k: SweepKind,
    li: int,
    k_notes: int,
) -> FrameTrace
    decreases k_notes,
{
    if k_notes <= 0 {
        f
    } else {
        sweep_note(sweep_line(f, chart, t, k, li, k_notes - 1), chart, t, k, li, k_notes - 1)
    }
}

/// Effect of the pass on the first `n_lines` whole lines, in order.
pub open spec fn sweep_lines(f: FrameTrace, chart: Chart, t: i64, k: SweepKind, n_lines: int) -> FrameTrace
    decreases n_lines,
{
    if n_lines <= 0 {
        f
    } else {
        sweep_line(
            sweep_lines(f, chart, t, k, n_lines - 1),
            chart,
            t,
            k,
            n_lines - 1,
            chart.notes_len(n_lines - 1),
        )
    }
}

/// Effect of one whole pass of kind `k` over the chart.
pub open spec fn sweep_pass(f: FrameTrace, chart: Chart, t: i64, k: SweepKind) -> FrameTrace {
    sweep_lines(f, chart, t, k, chart.line_count())
}

/// The engine state every fresh session starts from: every note pending,
/// all tallies zero, autoplay off.
pub open spec fn initial_engine(chart: Chart) -> EngineState {
    EngineState {
        states: Seq::new(
            chart.line_count() as nat,
            |li: int| Seq::new(chart.notes_len(li) as nat, |ni: int| NoteState::Unjudged),
        ),
        combo: 0,
        max_combo: 0,
        perfect: 0,
        good: 0,
        bad: 0,
        miss: 0,
        note_total: chart.total_notes(),
        autoplay: false,
    }
}

proof fn lemma_count_in_line_pending(sts: Seq<NoteState>, j: Judgment)
    requires
        forall|ni: int| 0 <= ni < sts.len() ==> !is_settled(#[trigger] sts[ni]),
    ensures
        count_in_line(sts, j) == 0,
    decreases sts.len(),
{
    if sts.len() > 0 {
        lemma_count_in_line_pending(sts.drop_last(), j);
    }
}

proof fn lemma_count_states_pending(states: Seq<Seq<NoteState>>, j: Judgment)
    requires
        forall|li: int, ni: int|
            0 <= li < states.len() && 0 <= ni < states[li].len() ==> !is_settled(
                #[trigger] states[li][ni],
            ),
    ensures
        count_states(states, j) == 0,
    decreases states.len(),
{
    if states.len() > 0 {
        lemma_count_in_line_pending(states.last(), j);
        lemma_count_states_pending(states.drop_last(), j);
    }
}

// ---------------------------------------------------------------------------
// Touch-to-note matching
// ---------------------------------------------------------------------------

/// Whether the touch position falls inside the hit region of note `ni` of
/// line `li` at time `t`: within `X_TOLERANCE` of the note's lane position
/// under the line's current horizontal position.
pub open spec fn hit_region(chart: Chart, li: int, ni: int, t: i64, touch: Touch) -> bool {
    idist(
        touch.x as int,
        track_value_at(chart.lines@[li].event_x@, t as int) + chart.note_at(li, ni).x,
    ) <= X_TOLERANCE
}

/// A note a started touch may match: still pending, inside the widest
/// acceptance window, and under the touch position.
pub open spec fn is_candidate(
    chart: Chart,
    states: Seq<Seq<NoteState>>,
    t: i64,
    touch: Touch,
    li: int,
    ni: int,
) -> bool {
    &&& chart.valid_index(li, ni)
    &&& states[li][ni] is Unjudged
    &&& idist(chart.note_at(li, ni).time as int, t as int) <= BAD_WINDOW
    &&& hit_region(chart, li, ni, t, touch)
}

/// Time distance of candidate `c` from the touch instant.
pub open spec fn cand_dist(chart: Chart, t: i64, c: (int, int)) -> int {
    idist(chart.note_at(c.0, c.1).time as int, t as int)
}

/// Fold the first `k_notes` notes of line `li` into the best candidate so
/// far: a candidate replaces the current best only when strictly closer in
/// time, so the first note in scan order wins ties.
pub open spec fn pick_best(
    chart: Chart,
    states: Seq<Seq<NoteState>>,
    t: i64,
    touch: Touch,
    cur: Option<(int, int)>,
    li: int,
    k_notes: int,
) -> Option<(int, int)>
    decreases k_notes,
{
    if k_notes <= 0 {
        cur
    } else {
        let prev = pick_best(chart, states, t, touch, cur, li, k_notes - 1);
        let better = match prev {
            Option::None => true,
            Option::Some(c) => cand_dist(chart, t, (li, k_notes - 1)) < cand_dist(chart, t, c),
        };
        if is_candidate(chart, states, t, touch, li, k_notes - 1) && better {
            Some((li, k_notes - 1))
        } else {
            prev
        }
    }
}

/// Fold whole lines, in order, into the best candidate so far.
pub open spec fn pick_best_lines(
    chart: Chart,
    states: Seq<Seq<NoteState>>,
    t: i64,
    touch: Touch,
    cur: Option<(int, int)>,
    n_lines: int,
) -> Option<(int, int)>
    decreases n_lines,
{
    if n_lines <= 0 {
        cur
    } else {
        pick_best(
            chart,
            states,
            t,
            touch,
            pick_best_lines(chart, states, t, touch, cur, n_lines - 1),
            n_lines - 1,
            chart.notes_len(n_lines - 1),
        )
    }
}

/// The note a started touch matches: among all candidates, one of minimal
/// time distance, the first in scan order on ties; `None` when no pending
/// note is both inside the acceptance window and under the touch.
pub open spec fn find_best_spec(
    chart: Chart,
    states: Seq<Seq<NoteState>>,
    t: i64,
    touch: Touch,
) -> Option<(int, int)> {
    pick_best_lines(chart, states, t, touch, Option::None, chart.line_count())
}

/// Classify a matched note by its absolute time offset.
pub open spec fn classify(dt: int) -> Judgment {
    if dt <= PERFECT_WINDOW {
        Judgment::Perfect
    } else if dt <= GOOD_WINDOW {
        Judgment::Good
    } else {
        Judgment::Bad
    }
}

/// The result of the note-level fold is the carried best or a candidate, and
/// it never reports a farther note than the carried best.
proof fn lemma_pick_best_props(
    chart: Chart,
    states: Seq<Seq<NoteState>>,
    t: i64,
    touch: Touch,
    cur: Option<(int, int)>,
    li: int,
    k_notes: int,
)
    ensures
        ({
            let r = pick_best(chart, states, t, touch, cur, li, k_notes);
            &&& (cur is Some ==> r is Some)
            &&& (r is Some ==> cur == r || is_candidate(
                chart,
                states,
                t,
                touch,
                r->Some_0.0,
                r->Some_0.1,
            ))
            &&& (match (r, cur) {
                (Option::Some(c), Option::Some(c0)) => cand_dist(chart, t, c) <= cand_dist(
                    chart,
                    t,
                    c0,
                ),
                _ => true,
            })
        }),
    decreases k_notes,
{
    if k_notes > 0 {
        lemma_pick_best_props(chart, states, t, touch, cur, li, k_notes - 1);
    }
}

/// The note-level fold reports a note at least as close as any candidate it
/// scanned.
proof fn lemma_pick_best_min(
    chart: Chart,
    states: Seq<Seq<NoteState>>,
    t: i64,
    touch: Touch,
    cur: Option<(int, int)>,
    li: int,
    k_notes: int,
    ni: int,
)
    requires
        0 <= ni < k_notes,
        is_candidate(chart, states, t, touch, li, ni),
    ensures
        ({
            let r = pick_best(chart, states, t, touch, cur, li, k_notes);
            r is Some && cand_dist(chart, t, r->Some_0) <= cand_dist(chart, t, (li, ni))
        }),
    decreases k_notes,
{
    if ni == k_notes - 1 {
        lemma_pick_best_props(chart, states, t, touch, cur, li, k_notes - 1);
    } else {
        lemma_pick_best_min(chart, states, t, touch, cur, li, k_notes - 1, ni);
    }
}

/// Line-level forms of the two facts above.
proof fn lemma_pick_best_lines_props(
    chart: Chart,
    states: Seq<Seq<NoteState>>,
    t: i64,
    touch: Touch,
    cur: Option<(int, int)>,
    n_lines: int,
)
    ensures
        ({
            let r = pick_best_lines(chart, states, t, touch, cur, n_lines);
            &&& (cur is Some ==> r is Some)
            &&& (r is Some ==> cur == r || is_candidate(
                chart,
                states,
                t,
                touch,
                r->Some_0.0,
                r->Some_0.1,
            ))
            &&& (match (r, cur) {
                (Option::Some(c), Option::Some(c0)) => cand_dist(chart, t, c) <= cand_dist(
                    chart,
                    t,
                    c0,
                ),
                _ => true,
            })
        }),
    decreases n_lines,
{
    if n_lines > 0 {
        lemma_pick_best_lines_props(chart, states, t, touch, cur, n_lines - 1);
        lemma_pick_best_props(
            chart,
            states,
            t,
            touch,
            pick_best_lines(chart, states, t, touch, cur, n_lines - 1),
            n_lines - 1,
            chart.notes_len(n_lines - 1),
        );
    }
}

proof fn lemma_pick_best_lines_min(
    chart: Chart,
    states: Seq<Seq<NoteState>>,
    t: i64,
    touch: Touch,
    cur: Option<(int, int)>,
    n_lines: int,
    li: int,
    ni: int,
)
    requires
        0 <= li < n_lines,
        0 <= ni < chart.notes_len(li),
        is_candidate(chart, states, t, touch, li, ni),
    ensures
        ({
            let r = pick_best_lines(chart, states, t, touch, cur, n_lines);
            r is Some && cand_dist(chart, t, r->Some_0) <= cand_dist(chart, t, (li, ni))
        }),
    decreases n_lines,
{
    if li == n_lines - 1 {
        lemma_pick_best_min(
            chart,
            states,
            t,
            touch,
            pick_best_lines(chart, states, t, touch, cur, n_lines - 1),
            li,
            chart.notes_len(li),
            ni,
        );
    } else {
        lemma_pick_best_lines_min(chart, states, t, touch, cur, n_lines - 1, li, ni);
        lemma_pick_best_props(
            chart,
            states,
            t,
            touch,
            pick_best_lines(chart, states, t, touch, cur, n_lines - 1),
            n_lines - 1,
            chart.notes_len(n_lines - 1),
        );
    }
}

/// The matcher's result is always a candidate.
pub proof fn lemma_find_best_sound(chart: Chart, states: Seq<Seq<NoteState>>, t: i64, touch: Touch)
    ensures
        ({
            let r = find_best_spec(chart, states, t, touch);
            r is Some ==> is_candidate(chart, states, t, touch, r->Some_0.0, r->Some_0.1)
        }),
{
    lemma_pick_best_lines_props(chart, states, t, touch, Option::None, chart.line_count());
}

/// The matcher's result is at least as close in time as every candidate.
pub proof fn lemma_find_best_minimal(
    chart: Chart,
    states: Seq<Seq<NoteState>>,
    t: i64,
    touch: Touch,
    li: int,
    ni: int,
)
    requires
        is_candidate(chart, states, t, touch, li, ni),
    ensures
        ({
            let r = find_best_spec(chart, states, t, touch);
            r is Some && cand_dist(chart, t, r->Some_0) <= cand_dist(chart, t, (li, ni))
        }),
{
    lemma_pick_best_lines_min(chart, states, t, touch, Option::None, chart.line_count(), li, ni);
}

// ---------------------------------------------------------------------------
// Per-frame model
// ---------------------------------------------------------------------------

/// Effect of one started touch: match it to the closest acceptable pending
/// note, then classify. A matched hold inside the good window starts
/// tracking the touch; outside it the hold is judged bad at once. Any other
/// matched note is judged by its offset. A touch matching nothing changes
/// nothing: stray touches never punish the player.
pub open spec fn started_step(f: FrameTrace, chart: Chart, t: i64, touch: Touch) -> FrameTrace {
    match find_best_spec(chart, f.eng.states, t, touch) {
        Option::None => f,
        Option::Some(c) => {
            let li = c.0;
            let ni = c.1;
            let n = chart.note_at(li, ni);
            let dt = cand_dist(chart, t, c);
            if n.kind is Hold {
                if dt <= GOOD_WINDOW {
                    FrameTrace {
                        eng: set_state(
                            f.eng,
                            li,
                            ni,
                            NoteState::HoldInProgress { touch_id: touch.id },
                        ),
                        emitted: f.emitted,
                    }
                } else {
                    FrameTrace {
                        eng: register_eng(set_state(f.eng, li, ni, NoteState::Bad), Judgment::Bad),
                        emitted: f.emitted.push(bad_note_for(chart, li, ni, t)),
                    }
                }
            } else {
                let j = classify(dt);
                if j == Judgment::Perfect {
                    FrameTrace {
                        eng: register_eng(
                            set_state(f.eng, li, ni, NoteState::PerfectHit),
                            Judgment::Perfect,
                        ),
                        emitted: f.emitted,
                    }
                } else if j == Judgment::Good {
                    FrameTrace {
                        eng: register_eng(
                            set_state(f.eng, li, ni, NoteState::GoodHit),
                            Judgment::Good,
                        ),
                        emitted: f.emitted,
                    }
                } else {
                    FrameTrace {
                        eng: register_eng(set_state(f.eng, li, ni, NoteState::Bad), Judgment::Bad),
                        emitted: f.emitted.push(bad_note_for(chart, li, ni, t)),
                    }
                }
            }
        },
    }
}

/// Effect of one touch event of any phase. Moves are consumed by in-progress
/// holds and change nothing else; an ended touch breaks every hold tracking
/// it.
pub open spec fn touch_step(f: FrameTrace, chart: Chart, t: i64, touch: Touch) -> FrameTrace {
    match touch.phase {
        TouchPhase::Started => started_step(f, chart, t, touch),
        TouchPhase::Moved => f,
        TouchPhase::Ended => sweep_pass(f, chart, t, SweepKind::EndTouch { id: touch.id }),
    }
}

/// Effect of the first `k` touches of the frame, in order.
pub open spec fn touches_fold(f: FrameTrace, chart: Chart, t: i64, touches: Seq<Touch>, k: int) -> FrameTrace
    decreases k,
{
    if k <= 0 {
        f
    } else {
        touch_step(touches_fold(f, chart, t, touches, k - 1), chart, t, touches[k - 1])
    }
}

/// Effect of one whole frame at chart time `t`. With autoplay on, input is
/// ignored: elapsed holds finish and every note whose time has arrived is
/// judged perfect. Otherwise elapsed holds finish, notes whose good window
/// has passed miss, and then the frame's touches apply in order.
pub open spec fn spec_update(f: FrameTrace, chart: Chart, t: i64, touches: Seq<Touch>) -> FrameTrace {
    if f.eng.autoplay {
        sweep_pass(
            sweep_pass(f, chart, t, SweepKind::HoldFinish),
            chart,
            t,
            SweepKind::AutoPerfect,
        )
    } else {
        let f1 = sweep_pass(f, chart, t, SweepKind::HoldFinish);
        let f2 = sweep_pass(f1, chart, t, SweepKind::MissLate);
        touches_fold(f2, chart, t, touches, touches.len() as int)
    }
}

// ---------------------------------------------------------------------------
// The engine
// ---------------------------------------------------------------------------

/// The judgment engine's session state: one lifecycle state per chart note,
/// the running combo, the best combo so far, the four judgment tallies, and
/// the autoplay flag. All mutable play-session state lives here; the chart
/// itself stays immutable and can be replayed by resetting the engine.
pub struct Judge {
    pub states: Vec<Vec<NoteState>>,
    pub combo: u32,
    pub max_combo: u32,
    pub perfect: u32,
    pub good: u32,
    pub bad: u32,
    pub miss: u32,
    pub note_total: u32,
    pub autoplay: bool,
}

impl View for Judge {
    type V = EngineState;

    open spec fn view(&self) -> EngineState {
        EngineState {
            states: states_view(self.states@),
            combo: self.combo as int,
            max_combo: self.max_combo as int,
            perfect: self.perfect as int,
            good: self.good as int,
            bad: self.bad as int,
            miss: self.miss as int,
            note_total: self.note_total as int,
            autoplay: self.autoplay,
        }
    }
}

impl Judge {
    /// State of note `ni` of line `li`.
    pub open spec fn note_state(self, li: int, ni: int) -> NoteState {
        self.states@[li]@[ni]
    }

    /// Session invariant: the state grid mirrors the chart and the tallies
    /// count it exactly.
    pub open spec fn inv(self, chart: Chart) -> bool {
        &&& chart.wf()
        &&& dims_ok(self@.states, chart)
        &&& counts_ok(self@)
        &&& self@.note_total == chart.total_notes()
        &&& self@.perfect + self@.good + self@.bad + self@.miss <= self@.note_total
    }

    /// The four judgment tallies, indexed perfect, good, bad, miss.
    pub fn counts(&self) -> (r: [u32; 4])
        ensures
            r@ == seq![self.perfect, self.good, self.bad, self.miss],
    {
        let r = [self.perfect, self.good, self.bad, self.miss];
        proof {
            assert(r@ =~= seq![self.perfect, self.good, self.bad, self.miss]);
        }
        r
    }

    /// Record one judgment against the tallies and the combo.
    fn register(&mut self, j: Judgment)
        requires
            old(self)@.perfect + old(self)@.good + old(self)@.bad + old(self)@.miss < NOTE_LIMIT,
            old(self)@.combo <= old(self)@.perfect + old(self)@.good,
            old(self)@.max_combo <= old(self)@.perfect + old(self)@.good,
        ensures
            final(self)@ == register_eng(old(self)@, j),
    {
        match j {
            Judgment::Perfect | Judgment::Good => {
                self.combo = self.combo + 1;
            },
            Judgment::Bad | Judgment::Miss => {
                self.combo = 0;
            },
        }
        if self.combo > self.max_combo {
            self.max_combo = self.combo;
        }
        match j {
            Judgment::Perfect => {
                self.perfect = self.perfect + 1;
            },
            Judgment::Good => {
                self.good = self.good + 1;
            },
            Judgment::Bad => {
                self.bad = self.bad + 1;
            },
            Judgment::Miss => {
                self.miss = self.miss + 1;
            },
        }
    }

    /// Move the pending or in-progress note `(li, ni)` to the settled state
    /// `st` and register the judgment it counts as.
    #[verifier::rlimit(100)]
    fn settle_note(&mut self, chart: &Chart, li: usize, ni: usize, st: NoteState, j: Judgment)
        requires
            old(self).inv(*chart),
            chart.valid_index(li as int, ni as int),
            !is_settled(old(self).note_state(li as int, ni as int)),
            settled_kind(st) == Some(j),
        ensures
            final(self).inv(*chart),
            final(self)@ == register_eng(set_state(old(self)@, li as int, ni as int, st), j),
    {
        proof {
            lemma_counts_bounded_strict(old(self)@, *chart, li as int, ni as int);
            crate::chart::lemma_total_notes_nonneg(chart.lines@);
            lemma_count_states_update(old(self)@.states, li as int, ni as int, st, Judgment::Perfect);
            lemma_count_states_update(old(self)@.states, li as int, ni as int, st, Judgment::Good);
            lemma_count_states_update(old(self)@.states, li as int, ni as int, st, Judgment::Bad);
            lemma_count_states_update(old(self)@.states, li as int, ni as int, st, Judgment::Miss);
        }
        self.states[li][ni] = st;
        proof {
            assert(states_view(self.states@) =~= set_state(old(self)@, li as int, ni as int, st).states);
        }
        self.register(j);
    }

    /// Replace the state of the unsettled note `(li, ni)` by another
    /// unsettled state (a hold starting to track a touch); no judgment is
    /// registered and the tallies are unchanged.
    #[verifier::rlimit(100)]
    fn set_unsettled(&mut self, chart: &Chart, li: usize, ni: usize, st: NoteState)
        requires
            old(self).inv(*chart),
            chart.valid_index(li as int, ni as int),
            !is_settled(old(self).note_state(li as int, ni as int)),
            !is_settled(st),
        ensures
            final(self).inv(*chart),
            final(self)@ == set_state(old(self)@, li as int, ni as int, st),
    {
        let ghost e0 = self@;
        proof {
            assert(e0.states[li as int].len() == chart.notes_len(li as int));
            assert(self.states@[li as int]@ == e0.states[li as int]);
        }
        self.states[li][ni] = st;
        proof {
            let li_ = li as int;
            let ni_ = ni as int;
            assert(self@.states =~= set_state(e0, li_, ni_, st).states);
            assert(self@ == set_state(e0, li_, ni_, st));
            assert(counts_ok(self@)) by {
                lemma_count_states_update(e0.states, li_, ni_, st, Judgment::Perfect);
                lemma_count_states_update(e0.states, li_, ni_, st, Judgment::Good);
                lemma_count_states_update(e0.states, li_, ni_, st, Judgment::Bad);
                lemma_count_states_update(e0.states, li_, ni_, st, Judgment::Miss);
            }
        }
    }

    /// A fresh engine for `chart`: every note pending, all tallies zero,
    /// autoplay off.
    #[verifier::rlimit(100)]
    pub fn new(chart: &Chart) -> (r: Judge)
        requires
            chart.wf(),
        ensures
            r@ == initial_engine(*chart),
            r.inv(*chart),
    {
        let states = blank_states(chart);
        let total = count_notes(chart);
        let r = Judge {
            states,
            combo: 0,
            max_combo: 0,
            perfect: 0,
            good: 0,
            bad: 0,
            miss: 0,
            note_total: total,
            autoplay: false,
        };
        proof {
            assert(r@ == initial_engine(*chart));
            assert(counts_ok(r@)) by {
                assert(forall|li: int, ni: int|
                    0 <= li < r@.states.len() && 0 <= ni < r@.states[li].len()
                        ==> !is_settled(#[trigger] r@.states[li][ni]));
                lemma_count_states_pending(r@.states, Judgment::Perfect);
                lemma_count_states_pending(r@.states, Judgment::Good);
                lemma_count_states_pending(r@.states, Judgment::Bad);
                lemma_count_states_pending(r@.states, Judgment::Miss);
            }
        }
        r
    }

    /// Restore every note to pending, zero combo, tallies and score, and
    /// clear the pending feedback entities — a retry without re-parsing.
    /// Only the autoplay switch survives.
    #[verifier::rlimit(100)]
    pub fn reset(&mut self, chart: &Chart, bad_notes: &mut Vec<BadNote>)
        requires
            old(self).inv(*chart),
        ensures
            final(self).inv(*chart),
            final(self)@ == (EngineState { autoplay: old(self)@.autoplay, ..initial_engine(*chart) }),
            final(bad_notes)@ == Seq::<BadNote>::empty(),
    {
        self.states = blank_states(chart);
        self.combo = 0;
        self.max_combo = 0;
        self.perfect = 0;
        self.good = 0;
        self.bad = 0;
        self.miss = 0;
        bad_notes.clear();
        proof {
            assert(self@ == (EngineState { autoplay: old(self)@.autoplay, ..initial_engine(*chart) }));
            assert(counts_ok(self@)) by {
                assert(forall|li: int, ni: int|
                    0 <= li < self@.states.len() && 0 <= ni < self@.states[li].len()
                        ==> !is_settled(#[trigger] self@.states[li][ni]));
                lemma_count_states_pending(self@.states, Judgment::Perfect);
                lemma_count_states_pending(self@.states, Judgment::Good);
                lemma_count_states_pending(self@.states, Judgment::Bad);
                lemma_count_states_pending(self@.states, Judgment::Miss);
            }
        }
    }

    /// Switch autoplay on or off; the judgment state is untouched.
    pub fn set_autoplay(&mut self, on: bool)
        ensures
            final(self)@ == (EngineState { autoplay: on, ..old(self)@ }),
    {
        self.autoplay = on;
    }
}

/// Append the feedback entity for note `(li, ni)` at chart time `t`.
#[verifier::rlimit(100)]
fn emit_bad(chart: &Chart, li: usize, ni: usize, t: i64, bad_notes: &mut Vec<BadNote>)
    requires
        chart.wf(),
        chart.valid_index(li as int, ni as int),
        -TIME_LIMIT <= t <= TIME_LIMIT,
    ensures
        final(bad_notes)@ == old(bad_notes)@.push(bad_note_for(*chart, li as int, ni as int, t)),
{
    proof {
        assert(chart.lines@[li as int].wf());
        assert(chart.note_at(li as int, ni as int).wf());
    }
    let line = &chart.lines[li];
    let n = line.notes[ni];
    let x = crate::chart::eval_events(&line.event_x, t) + n.x;
    let y = crate::chart::eval_events(&line.event_y, t);
    bad_notes.push(BadNote { time: t, x, y, kind: n.kind });
}

impl Judge {
    /// Run one pass of kind `k` over every note, in line order then note
    /// order. Afterwards no note the pass fires on remains; every change is a
    /// firing note moving to the pass's target state, so settled notes stay
    /// settled.
    #[verifier::rlimit(100)]
    fn run_sweep(&mut self, chart: &Chart, t: i64, k: SweepKind, bad_notes: &mut Vec<BadNote>)
        requires
            old(self).inv(*chart),
            -TIME_LIMIT <= t <= TIME_LIMIT,
        ensures
            final(self).inv(*chart),
            (FrameTrace { eng: final(self)@, emitted: final(bad_notes)@ }) == sweep_pass(
                (FrameTrace { eng: old(self)@, emitted: old(bad_notes)@ }),
                *chart,
                t,
                k,
            ),
            forall|l: int, n: int|
                chart.valid_index(l, n) ==> !sweep_hit(
                    #[trigger] final(self)@.states[l][n],
                    chart.note_at(l, n),
                    t,
                    k,
                ),
            forall|l: int, n: int|
                chart.valid_index(l, n) ==> (#[trigger] final(self)@.states[l][n] == old(
                    self,
                )@.states[l][n] || (sweep_hit(old(self)@.states[l][n], chart.note_at(l, n), t, k)
                    && final(self)@.states[l][n] == sweep_target(k))),
    {
        let ghost f0 = (FrameTrace { eng: self@, emitted: bad_notes@ });
        let mut li: usize = 0;
        let line_total = chart.lines.len();
        while li < line_total
            invariant
                self.inv(*chart),
                -TIME_LIMIT <= t <= TIME_LIMIT,
                line_total == chart.line_count(),
                0 <= li <= line_total,
                f0.eng == old(self)@,
                f0.emitted == old(bad_notes)@,
                (FrameTrace { eng: self@, emitted: bad_notes@ }) == sweep_lines(
                    f0,
                    *chart,
                    t,
                    k,
                    li as int,
                ),
                forall|l: int, n: int|
                    chart.valid_index(l, n) && l < li ==> !sweep_hit(
                        #[trigger] self@.states[l][n],
                        chart.note_at(l, n),
                        t,
                        k,
                    ),
                forall|l: int, n: int|
                    chart.valid_index(l, n) ==> (#[trigger] self@.states[l][n] == f0.eng.states[l][n]
                        || (sweep_hit(f0.eng.states[l][n], chart.note_at(l, n), t, k)
                        && self@.states[l][n] == sweep_target(k))),
            decreases line_total - li,
        {
            let mut ni: usize = 0;
            let note_total = chart.lines[li].notes.len();
            proof {
                assert(chart.lines@[li as int].wf());
            }
            while ni < note_total
                invariant
                    self.inv(*chart),
                    -TIME_LIMIT <= t <= TIME_LIMIT,
                    line_total == chart.line_count(),
                    0 <= li < line_total,
                    note_total == chart.notes_len(li as int),
                    0 <= ni <= note_total,
                    f0.eng == old(self)@,
                    f0.emitted == old(bad_notes)@,
                    (FrameTrace { eng: self@, emitted: bad_notes@ }) == sweep_line(
                        sweep_lines(f0, *chart, t, k, li as int),
                        *chart,
                        t,
                        k,
                        li as int,
                        ni as int,
                    ),
                    forall|l: int, n: int|
                        chart.valid_index(l, n) && (l < li || (l == li && n < ni)) ==> !sweep_hit(
                            #[trigger] self@.states[l][n],
                            chart.note_at(l, n),
                            t,
                            k,
                        ),
                    forall|l: int, n: int|
                        chart.valid_index(l, n) ==> (#[trigger] self@.states[l][n]
                            == f0.eng.states[l][n] || (sweep_hit(
                            f0.eng.states[l][n],
                            chart.note_at(l, n),
                            t,
                            k,
                        ) && self@.states[l][n] == sweep_target(k))),
                decreases note_total - ni,
            {
                let ghost f_before = (FrameTrace { eng: self@, emitted: bad_notes@ });
                proof {
                    assert(chart.lines@[li as int].wf());
                    assert(chart.note_at(li as int, ni as int).wf());
                    assert(self.states@[li as int]@ == self@.states[li as int]);
                }
                let st = self.states[li][ni];
                let note = chart.lines[li].notes[ni];
                let fire: bool = match k {
                    SweepKind::HoldFinish => matches!(st, NoteState::HoldInProgress { .. })
                        && note.end_time_ms() <= t,
                    SweepKind::MissLate => matches!(st, NoteState::Unjudged) && note.time
                        + GOOD_WINDOW < t,
                    SweepKind::AutoPerfect => matches!(st, NoteState::Unjudged) && note.time <= t,
                    SweepKind::EndTouch { id } => match st {
                        NoteState::HoldInProgress { touch_id } => touch_id == id,
                        _ => false,
                    },
                };
                proof {
                    assert(fire == sweep_hit(st, chart.note_at(li as int, ni as int), t, k));
                }
                if fire {
                    match k {
                        SweepKind::HoldFinish => {
                            self.settle_note(
                                chart,
                                li,
                                ni,
                                NoteState::HoldCompleted,
                                Judgment::Perfect,
                            );
                        },
                        SweepKind::MissLate => {
                            emit_bad(chart, li, ni, t, bad_notes);
                            self.settle_note(chart, li, ni, NoteState::Miss, Judgment::Miss);
                        },
                        SweepKind::AutoPerfect => {
                            self.settle_note(chart, li, ni, NoteState::PerfectHit, Judgment::Perfect);
                        },
                        SweepKind::EndTouch { .. } => {
                            emit_bad(chart, li, ni, t, bad_notes);
                            self.settle_note(chart, li, ni, NoteState::HoldBroken, Judgment::Bad);
                        },
                    }
                }
                proof {
                    assert((FrameTrace { eng: self@, emitted: bad_notes@ }) == sweep_note(
                        f_before,
                        *chart,
                        t,
                        k,
                        li as int,
                        ni as int,
                    ));
                    assert(sweep_line(
                        sweep_lines(f0, *chart, t, k, li as int),
                        *chart,
                        t,
                        k,
                        li as int,
                        ni as int + 1,
                    ) == sweep_note(f_before, *chart, t, k, li as int, ni as int));
                }
                ni = ni + 1;
            }
            proof {
                assert(sweep_lines(f0, *chart, t, k, li as int + 1) == sweep_line(
                    sweep_lines(f0, *chart, t, k, li as int),
                    *chart,
                    t,
                    k,
                    li as int,
                    chart.notes_len(li as int),
                ));
            }
            li = li + 1;
        }
    }
}

impl Judge {
    /// Scan every pending note for the one this started touch matches:
    /// minimal time distance within the acceptance window and under the
    /// touch, the first in scan order on ties.
    #[verifier::rlimit(100)]
    fn find_best(&self, chart: &Chart, t: i64, touch: &Touch) -> (r: Option<(usize, usize)>)
        requires
            self.inv(*chart),
            -TIME_LIMIT <= t <= TIME_LIMIT,
            -VALUE_LIMIT <= touch.x <= VALUE_LIMIT,
        ensures
            match r {
                Option::None => find_best_spec(*chart, self@.states, t, *touch) is None,
                Option::Some(c) => find_best_spec(*chart, self@.states, t, *touch) == Some(
                    (c.0 as int, c.1 as int),
                ),
            },
    {
        let ghost states = self@.states;
        let mut best: Option<(usize, usize)> = None;
        let mut best_dist: i64 = 0;
        let mut li: usize = 0;
        let line_total = chart.lines.len();
        while li < line_total
            invariant
                self.inv(*chart),
                states == self@.states,
                -TIME_LIMIT <= t <= TIME_LIMIT,
                -VALUE_LIMIT <= touch.x <= VALUE_LIMIT,
                line_total == chart.line_count(),
                0 <= li <= line_total,
                match best {
                    Option::None => pick_best_lines(*chart, states, t, *touch, Option::None, li as int)
                        is None,
                    Option::Some(c) => c.0 < li && chart.valid_index(c.0 as int, c.1 as int)
                        && pick_best_lines(*chart, states, t, *touch, Option::None, li as int)
                        == Some((c.0 as int, c.1 as int)) && best_dist == cand_dist(
                        *chart,
                        t,
                        (c.0 as int, c.1 as int),
                    ),
                },
            decreases line_total - li,
        {
            proof {
                assert(chart.lines@[li as int].wf());
            }
            let line_x = crate::chart::eval_events(&chart.lines[li].event_x, t);
            let ghost carried = pick_best_lines(*chart, states, t, *touch, Option::None, li as int);
            let mut ni: usize = 0;
            let note_total = chart.lines[li].notes.len();
            while ni < note_total
                invariant
                    self.inv(*chart),
                    states == self@.states,
                    -TIME_LIMIT <= t <= TIME_LIMIT,
                    -VALUE_LIMIT <= touch.x <= VALUE_LIMIT,
                    line_total == chart.line_count(),
                    0 <= li < line_total,
                    note_total == chart.notes_len(li as int),
                    0 <= ni <= note_total,
                    line_x == track_value_at(chart.lines@[li as int].event_x@, t as int),
                    -VALUE_LIMIT <= line_x <= VALUE_LIMIT,
                    carried == pick_best_lines(*chart, states, t, *touch, Option::None, li as int),
                    match best {
                        Option::None => pick_best(*chart, states, t, *touch, carried, li as int, ni as int)
                            is None,
                        Option::Some(c) => c.0 <= li && chart.valid_index(c.0 as int, c.1 as int)
                            && pick_best(
                            *chart,
                            states,
                            t,
                            *touch,
                            carried,
                            li as int,
                            ni as int,
                        ) == Some((c.0 as int, c.1 as int)) && best_dist == cand_dist(
                            *chart,
                            t,
                            (c.0 as int, c.1 as int),
                        ),
                    },
                decreases note_total - ni,
            {
                proof {
                    assert(chart.lines@[li as int].wf());
                    assert(chart.note_at(li as int, ni as int).wf());
                    assert(self.states@[li as int]@ == self@.states[li as int]);
                }
                let st = self.states[li][ni];
                let note = chart.lines[li].notes[ni];
                let dt = if note.time >= t {
                    note.time - t
                } else {
                    t - note.time
                };
                let mut cand = matches!(st, NoteState::Unjudged) && dt <= BAD_WINDOW;
                if cand {
                    let center = line_x + note.x;
                    let dx = if touch.x >= center {
                        touch.x - center
                    } else {
                        center - touch.x
                    };
                    cand = dx <= X_TOLERANCE;
                }
                proof {
                    assert(cand == is_candidate(*chart, states, t, *touch, li as int, ni as int));
                    assert(dt == cand_dist(*chart, t, (li as int, ni as int)));
                }
                let better = match best {
                    Option::None => true,
                    Option::Some(_) => dt < best_dist,
                };
                if cand && better {
                    best = Some((li, ni));
                    best_dist = dt;
                }
                ni = ni + 1;
            }
            proof {
                assert(pick_best_lines(*chart, states, t, *touch, Option::None, li as int + 1)
                    == pick_best(
                    *chart,
                    states,
                    t,
                    *touch,
                    carried,
                    li as int,
                    chart.notes_len(li as int),
                ));
            }
            li = li + 1;
        }
        best
    }

    /// Apply one started touch: match it and judge the matched note.
    #[verifier::rlimit(100)]
    fn handle_started(&mut self, chart: &Chart, t: i64, touch: &Touch, bad_notes: &mut Vec<BadNote>)
        requires
            old(self).inv(*chart),
            -TIME_LIMIT <= t <= TIME_LIMIT,
            -VALUE_LIMIT <= touch.x <= VALUE_LIMIT,
        ensures
            final(self).inv(*chart),
            (FrameTrace { eng: final(self)@, emitted: final(bad_notes)@ }) == started_step(
                (FrameTrace { eng: old(self)@, emitted: old(bad_notes)@ }),
                *chart,
                t,
                *touch,
            ),
            forall|l: int, n: int|
                chart.valid_index(l, n) && is_settled(old(self)@.states[l][n])
                    ==> #[trigger] final(self)@.states[l][n] == old(self)@.states[l][n],
    {
        let best = self.find_best(chart, t, touch);
        proof {
            lemma_find_best_sound(*chart, self@.states, t, *touch);
        }
        match best {
            Option::None => {},
            Option::Some((li, ni)) => {
                proof {
                    assert(chart.lines@[li as int].wf());
                    assert(chart.note_at(li as int, ni as int).wf());
                }
                let note = chart.lines[li].notes[ni];
                let dt = if note.time >= t {
                    note.time - t
                } else {
                    t - note.time
                };
                proof {
                    assert(dt == cand_dist(*chart, t, (li as int, ni as int)));
                }
                match note.kind {
                    NoteKind::Hold { .. } => {
                        if dt <= GOOD_WINDOW {
                            self.set_unsettled(
                                chart,
                                li,
                                ni,
                                NoteState::HoldInProgress { touch_id: touch.id },
                            );
                        } else {
                            emit_bad(chart, li, ni, t, bad_notes);
                            self.settle_note(chart, li, ni, NoteState::Bad, Judgment::Bad);
                        }
                    },
                    _ => {
                        if dt <= PERFECT_WINDOW {
                            self.settle_note(chart, li, ni, NoteState::PerfectHit, Judgment::Perfect);
                        } else if dt <= GOOD_WINDOW {
                            self.settle_note(chart, li, ni, NoteState::GoodHit, Judgment::Good);
                        } else {
                            emit_bad(chart, li, ni, t, bad_notes);
                            self.settle_note(chart, li, ni, NoteState::Bad, Judgment::Bad);
                        }
                    },
                }
            },
        }
    }

    /// Apply one touch event of any phase.
    fn handle_touch(&mut self, chart: &Chart, t: i64, touch: &Touch, bad_notes: &mut Vec<BadNote>)
        requires
            old(self).inv(*chart),
            -TIME_LIMIT <= t <= TIME_LIMIT,
            -VALUE_LIMIT <= touch.x <= VALUE_LIMIT,
        ensures
            final(self).inv(*chart),
            (FrameTrace { eng: final(self)@, emitted: final(bad_notes)@ }) == touch_step(
                (FrameTrace { eng: old(self)@, emitted: old(bad_notes)@ }),
                *chart,
                t,
                *touch,
            ),
            forall|l: int, n: int|
                chart.valid_index(l, n) && is_settled(old(self)@.states[l][n])
                    ==> #[trigger] final(self)@.states[l][n] == old(self)@.states[l][n],
    {
        match touch.phase {
            TouchPhase::Started => {
                self.handle_started(chart, t, touch, bad_notes);
            },
            TouchPhase::Moved => {},
            TouchPhase::Ended => {
                self.run_sweep(chart, t, SweepKind::EndTouch { id: touch.id }, bad_notes);
            },
        }
    }

    /// Advance the session to chart time `t` with this frame's touch events:
    /// finish elapsed holds, miss notes whose good window has passed, then
    /// match and judge the frame's touches in order (autoplay instead judges
    /// every due note perfect and ignores input). Appends a feedback entity
    /// for every note judged bad or missed. Once `t` has passed a note's end
    /// time by more than the good window, that note is settled, and settled
    /// notes never change again.
    #[verifier::rlimit(100)]
    pub fn update(&mut self, chart: &Chart, t: i64, touches: &Vec<Touch>, bad_notes: &mut Vec<BadNote>)
        requires
            old(self).inv(*chart),
            -TIME_LIMIT <= t <= TIME_LIMIT,
            forall|i: int|
                0 <= i < touches@.len() ==> -VALUE_LIMIT <= (#[trigger] touches@[i]).x
                    <= VALUE_LIMIT,
        ensures
            final(self).inv(*chart),
            (FrameTrace { eng: final(self)@, emitted: final(bad_notes)@ }) == spec_update(
                (FrameTrace { eng: old(self)@, emitted: old(bad_notes)@ }),
                *chart,
                t,
                touches@,
            ),
            forall|l: int, n: int|
                chart.valid_index(l, n) && chart.note_at(l, n).end_time() + GOOD_WINDOW < t
                    ==> is_settled(#[trigger] final(self)@.states[l][n]),
            forall|l: int, n: int|
                chart.valid_index(l, n) && is_settled(old(self)@.states[l][n])
                    ==> #[trigger] final(self)@.states[l][n] == old(self)@.states[l][n],
    {
        if self.autoplay {
            self.run_sweep(chart, t, SweepKind::HoldFinish, bad_notes);
            let ghost s1 = self@;
            self.run_sweep(chart, t, SweepKind::AutoPerfect, bad_notes);
            proof {
                assert forall|l: int, n: int|
                    chart.valid_index(l, n) && chart.note_at(l, n).end_time() + GOOD_WINDOW < t
                        implies is_settled(#[trigger] self@.states[l][n]) by {
                    assert(chart.lines@[l].wf());
                    assert(chart.note_at(l, n).wf());
                    assert(!sweep_hit(self@.states[l][n], chart.note_at(l, n), t, SweepKind::AutoPerfect));
                    assert(self@.states[l][n] == s1.states[l][n] || self@.states[l][n]
                        == NoteState::PerfectHit);
                    assert(!sweep_hit(s1.states[l][n], chart.note_at(l, n), t, SweepKind::HoldFinish));
                }
            }
        } else {
            self.run_sweep(chart, t, SweepKind::HoldFinish, bad_notes);
            let ghost s1 = self@;
            self.run_sweep(chart, t, SweepKind::MissLate, bad_notes);
            proof {
                assert forall|l: int, n: int|
                    chart.valid_index(l, n) && chart.note_at(l, n).end_time() + GOOD_WINDOW < t
                        implies is_settled(#[trigger] self@.states[l][n]) by {
                    assert(chart.lines@[l].wf());
                    assert(chart.note_at(l, n).wf());
                    assert(!sweep_hit(self@.states[l][n], chart.note_at(l, n), t, SweepKind::MissLate));
                    assert(self@.states[l][n] == s1.states[l][n] || self@.states[l][n]
                        == NoteState::Miss);
                    assert(!sweep_hit(s1.states[l][n], chart.note_at(l, n), t, SweepKind::HoldFinish));
                }
            }
            let ghost f2 = (FrameTrace { eng: self@, emitted: bad_notes@ });
            let mut i: usize = 0;
            while i < touches.len()
                invariant
                    self.inv(*chart),
                    -TIME_LIMIT <= t <= TIME_LIMIT,
                    forall|k: int|
                        0 <= k < touches@.len() ==> -VALUE_LIMIT <= (#[trigger] touches@[k]).x
                            <= VALUE_LIMIT,
                    0 <= i <= touches@.len(),
                    (FrameTrace { eng: self@, emitted: bad_notes@ }) == touches_fold(
                        f2,
                        *chart,
                        t,
                        touches@,
                        i as int,
                    ),
                    forall|l: int, n: int|
                        chart.valid_index(l, n) && chart.note_at(l, n).end_time() + GOOD_WINDOW < t
                            ==> is_settled(#[trigger] self@.states[l][n]),
                    forall|l: int, n: int|
                        chart.valid_index(l, n) && is_settled(old(self)@.states[l][n])
                            ==> #[trigger] self@.states[l][n] == old(self)@.states[l][n],
                decreases touches@.len() - i,
            {
                let touch = touches[i];
                self.handle_touch(chart, t, &touch, bad_notes);
                i = i + 1;
            }
        }
    }
}

/// Total number of notes across the chart's lines.
fn count_notes(chart: &Chart) -> (r: u32)
    requires
        chart.wf(),
    ensures
        r == chart.total_notes(),
{
    proof {
        crate::chart::lemma_total_notes_nonneg(chart.lines@);
    }
    let mut total: u32 = 0;
    let mut li: usize = 0;
    while li < chart.lines.len()
        invariant
            chart.wf(),
            0 <= li <= chart.lines@.len(),
            total == crate::chart::total_notes_of(chart.lines@.take(li as int)),
            0 <= total <= NOTE_LIMIT,
        decreases chart.lines@.len() - li,
    {
        proof {
            crate::chart::lemma_total_notes_parts(chart.lines@, li as int);
            assert(chart.lines@.take(li as int + 1).drop_last() =~= chart.lines@.take(li as int));
            assert(chart.lines@.take(li as int + 1).last() == chart.lines@[li as int]);
        }
        let n = chart.lines[li].notes.len();
        total = total + n as u32;
        li = li + 1;
    }
    proof {
        assert(chart.lines@.take(chart.lines@.len() as int) =~= chart.lines@);
    }
    total
}

/// One pending state per note of the chart.
fn blank_states(chart: &Chart) -> (r: Vec<Vec<NoteState>>)
    ensures
        states_view(r@) == initial_engine(*chart).states,
{
    let mut out: Vec<Vec<NoteState>> = Vec::new();
    let mut li: usize = 0;
    while li < chart.lines.len()
        invariant
            0 <= li <= chart.lines@.len(),
            out@.len() == li,
            forall|l: int|
                0 <= l < li ==> (#[trigger] out@[l])@ =~= Seq::new(
                    chart.notes_len(l) as nat,
                    |ni: int| NoteState::Unjudged,
                ),
        decreases chart.lines@.len() - li,
    {
        let mut row: Vec<NoteState> = Vec::new();
        let mut ni: usize = 0;
        let notes_len = chart.lines[li].notes.len();
        while ni < notes_len
            invariant
                0 <= ni <= notes_len,
                row@.len() == ni,
                forall|n: int| 0 <= n < ni ==> row@[n] == NoteState::Unjudged,
            decreases notes_len - ni,
        {
            row.push(NoteState::Unjudged);
            ni = ni + 1;
        }
        proof {
            assert(row@ =~= Seq::new(row@.len(), |n: int| NoteState::Unjudged));
        }
        out.push(row);
        li = li + 1;
    }
    proof {
        assert(states_view(out@) =~~= initial_engine(*chart).states);
    }
    out
}

} // verus!
