//! Session-wide laws of the judgment engine, stated and proved over the
//! ghost model that `Judge::update` is specified against.

use vstd::prelude::*;
use crate::chart::Chart;
use crate::judge::{
    cand_dist, classify, find_best_spec, initial_engine, is_candidate, is_settled,
    lemma_counts_bounded, lemma_counts_complete, lemma_find_best_minimal, lemma_find_best_sound,
    register_eng, spec_update, EngineState, FrameTrace, Judge, Judgment, NoteState, Touch,
    BAD_WINDOW, GOOD_WINDOW, PERFECT_WINDOW,
};

verus! {

/// The matcher's acceptance windows are strictly nested: perfect inside
/// good inside the widest acceptance window. The matching algorithm depends
/// on this ordering.
pub proof fn lemma_window_ordering()
    ensures
        0 < PERFECT_WINDOW < GOOD_WINDOW < BAD_WINDOW,
{
}

/// The tallies never exceed the chart's note total: however a session
/// proceeds, `perfect + good + bad + miss <= total_notes` at every instant.
pub proof fn lemma_tally_conservation(j: Judge, chart: Chart)
    requires
        j.inv(chart),
    ensures
        j@.perfect + j@.good + j@.bad + j@.miss <= chart.total_notes(),
{
    lemma_counts_bounded(j@, chart);
}

/// Once every note is settled — which `Judge::update` guarantees as soon as
/// chart time passes the last note's end time by more than the good window —
/// the tallies sum exactly to the chart's note total.
pub proof fn lemma_tally_completion(j: Judge, chart: Chart)
    requires
        j.inv(chart),
        forall|li: int, ni: int|
            chart.valid_index(li, ni) ==> is_settled(#[trigger] j@.states[li][ni]),
    ensures
        j@.perfect + j@.good + j@.bad + j@.miss == chart.total_notes(),
{
    lemma_counts_complete(j@, chart);
}

/// The tallies sum exactly to the chart's note total once chart time has
/// passed every note's end time by more than the good window: by then
/// `Judge::update` has settled every note (its postcondition), and settled
/// tallies count the whole chart.
pub proof fn lemma_tally_completion_after_end(j: Judge, chart: Chart, t: i64)
    requires
        j.inv(chart),
        forall|li: int, ni: int|
            chart.valid_index(li, ni) && chart.note_at(li, ni).end_time() + GOOD_WINDOW < t
                ==> is_settled(#[trigger] j@.states[li][ni]),
        forall|li: int, ni: int|
            chart.valid_index(li, ni) ==> (#[trigger] chart.note_at(li, ni)).end_time()
                + GOOD_WINDOW < t,
    ensures
        j@.perfect + j@.good + j@.bad + j@.miss == chart.total_notes(),
{
    assert forall|li: int, ni: int| chart.valid_index(li, ni) implies is_settled(
        #[trigger] j@.states[li][ni],
    ) by {
        assert(chart.note_at(li, ni).end_time() + GOOD_WINDOW < t);
    }
    lemma_counts_complete(j@, chart);
}

/// A touch landing exactly at a note's time always scores a perfect: if any
/// pending note under the touch sits exactly at the touch instant, the
/// matcher picks a note at distance zero, and distance zero classifies as
/// perfect.
pub proof fn lemma_exact_touch_perfect(
    chart: Chart,
    states: Seq<Seq<NoteState>>,
    t: i64,
    touch: Touch,
    li: int,
    ni: int,
)
    requires
        is_candidate(chart, states, t, touch, li, ni),
        chart.note_at(li, ni).time == t,
    ensures
        ({
            let r = find_best_spec(chart, states, t, touch);
            &&& r is Some
            &&& cand_dist(chart, t, r->Some_0) == 0
            &&& classify(cand_dist(chart, t, r->Some_0)) == Judgment::Perfect
            &&& is_candidate(chart, states, t, touch, r->Some_0.0, r->Some_0.1)
        }),
{
    lemma_find_best_minimal(chart, states, t, touch, li, ni);
    lemma_find_best_sound(chart, states, t, touch);
}

/// A settled note is never matched again by any touch: a note is judged at
/// most once. (In particular a note that has already missed through the
/// per-frame sweep cannot be hit afterwards.)
pub proof fn lemma_settled_never_matched(
    chart: Chart,
    states: Seq<Seq<NoteState>>,
    t: i64,
    touch: Touch,
    li: int,
    ni: int,
)
    requires
        is_settled(states[li][ni]),
    ensures
        !is_candidate(chart, states, t, touch, li, ni),
{
}

/// Combo resets to exactly zero on a bad or miss judgment and on nothing
/// else: every other judgment extends it by exactly one.
pub proof fn lemma_combo_law(e: EngineState, j: Judgment)
    ensures
        register_eng(e, j).combo == if j == Judgment::Bad || j == Judgment::Miss {
            0int
        } else {
            e.combo + 1
        },
        register_eng(e, j).perfect + register_eng(e, j).good + register_eng(e, j).bad
            + register_eng(e, j).miss == e.perfect + e.good + e.bad + e.miss + 1,
{
}

/// One frame's worth of input to the engine.
pub ghost struct FrameInput {
    pub t: i64,
    pub touches: Seq<Touch>,
}

/// The trace a whole sequence of frames leaves, starting from `f`.
pub open spec fn run_frames(f: FrameTrace, chart: Chart, inputs: Seq<FrameInput>) -> FrameTrace
    decreases inputs.len(),
{
    if inputs.len() == 0 {
        f
    } else {
        spec_update(
            run_frames(f, chart, inputs.drop_last()),
            chart,
            inputs.last().t,
            inputs.last().touches,
        )
    }
}

/// Determinism and replayability: a session is a mathematical function of
/// its starting state and its frame inputs, so two engines in the same state
/// — a fresh one, or one brought back by `reset`, which restores exactly the
/// initial state — produce identical judgments, tallies and feedback when
/// fed an identical time/input sequence.
pub proof fn lemma_replay_deterministic(
    chart: Chart,
    inputs: Seq<FrameInput>,
    fresh: FrameTrace,
    replay: FrameTrace,
)
    requires
        fresh.eng == initial_engine(chart),
        replay.eng == initial_engine(chart),
        fresh.emitted == replay.emitted,
    ensures
        run_frames(fresh, chart, inputs) == run_frames(replay, chart, inputs),
{
    assert(fresh == replay);
}

} // verus!
