//! What a device callback comes to: what it counts, when output starts, and when it is heard.
use super::device::{
    answers_at, audible_after, gap_since, is_boundary_due, is_current, is_due, is_heard,
    measured_latency, playback_of, presentation_for, presented, state_begun, timing_after, Answers,
    Diagnostics, Entry, Evidence, Found, OutputState, TimestampFallback,
};
use super::ingress::GateView;
use super::runtime::Timing;
use crate::audio::sync_correction::CorrectionSchedule;
use crate::audio::ScheduledStartOutcome;
use crate::sync::raw_clock::instant_ns;
use std::time::Instant;
use vstd::prelude::*;

verus! {

/// All fallbacks that were counted.
pub open spec fn fallbacks(d: Diagnostics) -> int {
    d.fallback_unavailable + d.fallback_unsupported + d.fallback_invalid + d.fallback_non_monotonic
        + d.fallback_clock_domain_mismatch
}

/// No counter is at its end.
pub open spec fn counts_on(d: Diagnostics) -> bool {
    &&& d.callbacks < u64::MAX
    &&& d.silent_callbacks < u64::MAX
    &&& d.fallback_unavailable < u64::MAX
    &&& d.fallback_unsupported < u64::MAX
    &&& d.fallback_invalid < u64::MAX
    &&& d.fallback_non_monotonic < u64::MAX
    &&& d.fallback_clock_domain_mismatch < u64::MAX
}

/// A callback is counted once as it begins, with the frames that it is asked for; a timestamp
/// that was not measured is counted once, under its reason, and noted with the number of its
/// callback. The longest gap is kept. What a callback reports of itself alone begins anew, and
/// what was counted of output stays.
pub proof fn a_callback_is_counted_as_it_begins(
    d: Diagnostics,
    frames: usize,
    playback_delay_us: u64,
    gap_us: Option<u64>,
    fallback: Option<TimestampFallback>,
    evidence: Evidence,
)
    requires
        counts_on(d),
        d.requested_frames + frames <= u64::MAX,
    ensures
        ({
            let after = d.entered(frames, playback_delay_us, gap_us, fallback, evidence);
            &&& after.callbacks == d.callbacks + 1
            &&& after.requested_frames == d.requested_frames + frames
            &&& after.callback_frames == frames
            &&& after.playback_delay_us == playback_delay_us
            &&& after.output_xrun_count == evidence.xrun_count
            &&& after.output_buffer_size_frames == evidence.buffer_size_frames
            &&& after.raw_error_us is None && after.filtered_error_us is None
            &&& after.insert_every == 0 && after.drop_every == 0
            &&& after.max_callback_gap_us >= d.max_callback_gap_us
            &&& gap_us matches Some(gap) ==> after.max_callback_gap_us >= gap
            &&& after.max_callback_gap_us == d.max_callback_gap_us || gap_us == Some(
                after.max_callback_gap_us,
            )
            &&& fallback is None ==> fallbacks(after) == fallbacks(d)
                && after.last_timestamp_fallback_callback == d.last_timestamp_fallback_callback
            &&& fallback is Some ==> fallbacks(after) == fallbacks(d) + 1
                && after.last_timestamp_fallback_callback == after.callbacks
            &&& after.fallback_unavailable == d.fallback_unavailable + (if fallback == Some(
                TimestampFallback::Unavailable,
            ) {
                1int
            } else {
                0
            })
            &&& after.fallback_unsupported == d.fallback_unsupported + (if fallback == Some(
                TimestampFallback::Unsupported,
            ) {
                1int
            } else {
                0
            })
            &&& after.fallback_invalid == d.fallback_invalid + (if fallback == Some(
                TimestampFallback::Invalid,
            ) {
                1int
            } else {
                0
            })
            &&& after.fallback_non_monotonic == d.fallback_non_monotonic + (if fallback == Some(
                TimestampFallback::NonMonotonic,
            ) {
                1int
            } else {
                0
            })
            &&& after.inserted_frames == d.inserted_frames
            &&& after.dropped_frames == d.dropped_frames
            &&& after.underrun_frames == d.underrun_frames
            &&& after.silent_callbacks == d.silent_callbacks
            &&& after.silent_frames == d.silent_frames
            &&& after.sample_rate == d.sample_rate
            &&& after.generation == d.generation
            &&& after.startup_reanchors == d.startup_reanchors
            &&& after.correction_reanchors == d.correction_reanchors
            &&& after.last_reanchor_error_us == d.last_reanchor_error_us
        }),
{
}

/// A callback that is heard counts the frames that it lacked, and reports the cadence that it
/// followed under a measured timestamp. One that is not heard counts as silent, with all its
/// frames, and lacks none.
pub proof fn a_callback_is_heard_or_silent(
    d: Diagnostics,
    audible: bool,
    measured: bool,
    frames: usize,
    missing: u64,
    applied: CorrectionSchedule,
)
    requires
        counts_on(d),
        d.underrun_frames + missing <= u64::MAX,
        d.silent_frames + frames <= u64::MAX,
    ensures
        ({
            let after = d.left(audible, measured, frames, missing, applied);
            &&& audible ==> after.underrun_frames == d.underrun_frames + missing
                && after.silent_callbacks == d.silent_callbacks && after.silent_frames
                == d.silent_frames
            &&& !audible ==> after.silent_callbacks == d.silent_callbacks + 1
                && after.silent_frames == d.silent_frames + frames && after.underrun_frames
                == d.underrun_frames
            &&& audible && measured ==> after.insert_every == applied.insert_every_n_frames
                && after.drop_every == applied.drop_every_n_frames
            &&& !audible || !measured ==> after.insert_every == d.insert_every && after.drop_every
                == d.drop_every
            &&& after == (Diagnostics {
                insert_every: after.insert_every,
                drop_every: after.drop_every,
                underrun_frames: after.underrun_frames,
                silent_callbacks: after.silent_callbacks,
                silent_frames: after.silent_frames,
                ..d
            })
        }),
{
}

/// No count goes back, and one that is at its end stays there.
pub proof fn counts_do_not_go_back(
    d: Diagnostics,
    frames: usize,
    playback_delay_us: u64,
    gap_us: Option<u64>,
    fallback: Option<TimestampFallback>,
    evidence: Evidence,
    audible: bool,
    measured: bool,
    missing: u64,
    applied: CorrectionSchedule,
)
    ensures
        ({
            let begun = d.entered(frames, playback_delay_us, gap_us, fallback, evidence);
            let after = begun.left(audible, measured, frames, missing, applied);
            &&& after.callbacks >= d.callbacks
            &&& after.requested_frames >= d.requested_frames
            &&& after.underrun_frames >= d.underrun_frames
            &&& after.silent_callbacks >= d.silent_callbacks
            &&& after.silent_frames >= d.silent_frames
            &&& fallbacks(after) >= fallbacks(d)
        }),
{
}

/// A clear that the output has not seen ends it, and nothing from before it may be played. One
/// that it has seen changes nothing, nor does anything else that the control gate shows.
pub proof fn a_clear_ends_output_once(state: OutputState, view: GateView)
    ensures
        ({
            let after = state.after_clear(view);
            let unseen = view.says().revoked && view.says().epoch > state.minimum_epoch;
            &&& unseen ==> !after.started && after.floor_ns is None && after.last_ns is None
                && after.minimum_epoch == view.says().epoch
            &&& !unseen ==> after == state
            &&& after.minimum_epoch >= state.minimum_epoch
            &&& after.generation == state.generation
            &&& after.after_clear(view) == after
        }),
{
}

/// A new generation ends output; the same one changes nothing. What may be played stays.
pub proof fn a_new_generation_ends_output(state: OutputState, generation: u64)
    ensures
        ({
            let after = state.in_generation(generation);
            &&& after.generation == Some(generation)
            &&& state.generation == Some(generation) ==> after == state
            &&& state.generation != Some(generation) ==> !after.started && after.floor_ns is None
                && after.last_ns is None
            &&& after.minimum_epoch == state.minimum_epoch
        }),
{
}

/// The lowest latency that was measured is kept, and the last one.
pub proof fn the_lowest_latency_is_kept(state: OutputState, measured_ns: Option<u64>)
    ensures
        ({
            let after = state.with_latency(measured_ns);
            &&& measured_ns is None ==> after == state
            &&& measured_ns matches Some(measured) ==> {
                &&& after.last_ns == Some(measured)
                &&& after.floor_ns matches Some(floor) && floor <= measured && (state.floor_ns
                    matches Some(known) ==> floor <= known) && (floor == measured || Some(floor)
                    == state.floor_ns)
            }
            &&& after.started == state.started
            &&& after.minimum_epoch == state.minimum_epoch
            &&& after.generation == state.generation
        }),
{
}

/// A latency is measured where the timestamp is no fallback and playback does not come before
/// the callback, and is the time between the two.
pub proof fn a_latency_is_the_time_until_playback(
    fallback: bool,
    callback_ns: u64,
    playback_ns: u64,
    latency_ns: Option<u64>,
)
    requires
        call_ensures(measured_latency, (fallback, callback_ns, playback_ns), latency_ns),
    ensures
        latency_ns is Some <==> !fallback && playback_ns >= callback_ns,
        latency_ns matches Some(latency) ==> callback_ns + latency == playback_ns,
{
}

/// The gap between callbacks is told in whole microseconds, and is none where the later one
/// comes first.
pub proof fn a_gap_is_told_in_microseconds(
    previous: Option<Instant>,
    captured_at: Instant,
    gap_us: Option<u64>,
)
    requires
        call_ensures(gap_since, (previous, captured_at), gap_us),
    ensures
        gap_us is Some <==> previous is Some,
        previous matches Some(before) ==> ({
            let ns = instant_ns(captured_at) - instant_ns(before);
            let gap = gap_us->0;
            &&& ns < 0 ==> gap == 0
            &&& ns >= 0 && gap < u64::MAX ==> gap * 1_000 <= ns < (gap + 1) * 1_000
            &&& ns >= 0 && gap == u64::MAX ==> ns >= gap * 1_000
        }),
{
}

/// Output is heard so long after its capture as it lies ahead, if there is such an instant.
pub proof fn output_is_heard_as_far_ahead_as_it_lies(
    captured_at: Instant,
    ahead_ns: u64,
    playback: Instant,
)
    requires
        call_ensures(playback_of, (captured_at, ahead_ns), playback),
    ensures
        instant_ns(playback) == instant_ns(captured_at) + ahead_ns || (playback == captured_at
            && forall|t: Instant| #[trigger] instant_ns(t) != instant_ns(captured_at) + ahead_ns),
{
}

/// A timing is current up to its last instant. What is expected is due a millisecond before its
/// time and from then on, and a boundary from its time on. Without a time nothing is due.
pub proof fn what_is_due_is_due_in_time(timing: Timing, captured_at: Instant, playback: Instant, answers: (
    bool,
    bool,
    bool,
))
    requires
        call_ensures(answers_at, (timing, captured_at, playback), answers),
    ensures
        answers.0 <==> (timing.valid_until matches Some(until) ==> instant_ns(captured_at)
            <= instant_ns(until)),
        answers.1 ==> (timing.expected matches Some(expected) && instant_ns(playback) + 1_000_000
            >= instant_ns(expected)),
        !answers.1 ==> (timing.expected matches Some(expected) ==> instant_ns(playback) + 1_000_000
            < instant_ns(expected) || forall|t: Instant| #[trigger]
            instant_ns(t) != instant_ns(playback) + 1_000_000),
        answers.2 <==> (timing.boundary_deadline matches Some(deadline) && instant_ns(playback)
            >= instant_ns(deadline)),
{
    assert(answers.0 == is_current(timing, captured_at));
    assert(answers.1 == is_due(timing, playback));
    assert(answers.2 == is_boundary_due(timing, playback));
}

/// A callback presents a boundary to the start only where the start waits for it, the timing
/// that is valid and current names the same boundary, and it has come; it then presents that
/// boundary.
pub proof fn only_a_boundary_that_has_come_is_presented(timing: Timing, answers: Answers)
    ensures
        presented(timing, answers) matches Some(zone) ==> {
            &&& answers.first == (ScheduledStartOutcome::Waiting { start_at_zone_us: zone })
            &&& timing.boundary == zone
            &&& timing.valid && answers.current && answers.boundary_due
        },
        presented(timing, answers) is None ==> !(answers.first matches
            ScheduledStartOutcome::Waiting { start_at_zone_us } && timing.boundary
            == start_at_zone_us && timing.valid && answers.current && answers.boundary_due),
{
}

/// The same of the function that a callback asks.
pub proof fn a_presentation_is_the_boundary_itself(
    outcome: ScheduledStartOutcome,
    valid: bool,
    boundary: i64,
    due: bool,
    presentation: Option<i64>,
)
    requires
        call_ensures(presentation_for, (outcome, valid, boundary, due), presentation),
    ensures
        presentation matches Some(zone) ==> zone == boundary && valid && due && outcome == (
        ScheduledStartOutcome::Waiting { start_at_zone_us: zone }),
        presentation is None ==> !(valid && due && outcome == (ScheduledStartOutcome::Waiting {
            start_at_zone_us: boundary,
        })),
{
}

/// Output is heard where no start is scheduled, and from the start on, and never while it is
/// waited for, closed or stale.
pub proof fn output_is_heard_from_the_start_on(outcome: ScheduledStartOutcome, audible: bool)
    requires
        call_ensures(is_heard, (outcome,), audible),
    ensures
        outcome is Waiting || outcome is Closed || outcome is StaleScope ==> !audible,
        outcome is Unscheduled || outcome is Started || outcome is BoundaryWon ==> audible,
{
}

/// A callback is heard exactly where its scope is open, output has started, something is
/// prepared that is not from before the last clear, and the start lets it. Output starts only
/// where that is ready, its timing is valid and current, and its time has come; once started it
/// stays so. Without a timing a callback is not heard.
pub proof fn a_callback_is_heard_once_output_has_started(
    begun: OutputState,
    timing: Option<Timing>,
    entry: Entry,
    answers: Answers,
)
    ensures
        ({
            let (state, audible) = audible_after(begun, timing, entry, answers);
            &&& timing is None ==> !audible && state == begun
            &&& timing matches Some(t) ==> {
                let ready = !t.pending && begun.minimum_epoch <= t.epoch;
                &&& state.started <==> begun.started || (ready && t.valid && answers.current
                    && answers.due)
                &&& audible <==> entry.open && state.started && ready && (answers.second
                    is Unscheduled || answers.second is Started || answers.second is BoundaryWon)
            }
            &&& state == (OutputState { started: state.started, ..begun })
        }),
{
}

/// The timing that a callback goes by is the one that it read, or else the last one that it
/// knew.
pub proof fn a_callback_goes_by_the_last_timing_it_knows(cached: Option<Timing>, found: Found)
    ensures
        found.timing is Some ==> timing_after(cached, found) == found.timing,
        found.timing is None ==> timing_after(cached, found) == cached,
{
}

/// As a callback begins, output is ended by a clear that was not seen or by another generation
/// than its own, and by nothing else; then its latency is taken in.
pub proof fn output_begins_by_clear_generation_and_latency(
    state: OutputState,
    cached: Option<Timing>,
    entry: Entry,
    found: Found,
)
    ensures
        ({
            let begun = state_begun(state, cached, entry, found);
            let unseen = found.view.says().revoked && found.view.says().epoch
                > state.minimum_epoch;
            let timing = if found.timing is Some {
                found.timing
            } else {
                cached
            };
            let changed = timing matches Some(t) && state.generation != Some(t.generation);
            &&& begun.started <==> state.started && !unseen && !changed
            &&& begun.minimum_epoch == if unseen {
                found.view.says().epoch
            } else {
                state.minimum_epoch
            }
            &&& timing matches Some(t) ==> begun.generation == Some(t.generation)
            &&& timing is None ==> begun.generation == state.generation
            &&& entry.measured_ns is Some ==> begun.last_ns == entry.measured_ns
            &&& entry.measured_ns is None && (unseen || changed) ==> begun.floor_ns is None
                && begun.last_ns is None
            &&& entry.measured_ns is None && !unseen && !changed ==> begun.floor_ns
                == state.floor_ns && begun.last_ns == state.last_ns
        }),
{
}

} // verus!
