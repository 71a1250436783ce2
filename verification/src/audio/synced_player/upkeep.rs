//! What the worker's decisions come to: which events it heeds, when it asks for an anchor and
//! for which instant, when it makes its view anew, and what it tells of time.
use super::device::Diagnostics;
use super::handoff_probe::timeline::feedback::{ModelHealth, ValidatedObservation};
use super::runtime::Timing;
use super::worker::{
    anchor_instant, anchor_of, boundary_of, boundary_zone, delayed, frames_duration, frames_ns,
    lasting, timing_of, valid_limit, zone_of, AnchorRequest, DeviceEvent, FilteredError,
    TimingFacts, WorkerState,
};
use crate::audio::StartState;
use crate::sync::raw_clock::{instant_ns, lasts};
use std::time::{Duration, Instant};
use vstd::prelude::*;

verus! {

/// An event of the present generation is the latest one from then on, and a reanchor that its
/// feedback asks for stays asked for until another takes its place. An event of another
/// generation changes nothing.
pub proof fn an_event_is_heeded_in_its_own_generation(
    state: WorkerState,
    event: DeviceEvent,
    request: Option<ValidatedObservation>,
)
    ensures
        ({
            let after = state.taken_in(event, request);
            let own = event.generation == state.generation;
            &&& own ==> after.latest == Some(event)
            &&& own && request is Some ==> after.pending_reanchor == request
            &&& own && request is None ==> after.pending_reanchor == state.pending_reanchor
            &&& !own ==> after.latest == state.latest && after.pending_reanchor
                == state.pending_reanchor
            &&& after == (WorkerState {
                latest: after.latest,
                pending_reanchor: after.pending_reanchor,
                ..state
            })
            &&& own ==> state.heeded(event) == event.feedback
            &&& !own ==> state.heeded(event) is None
        }),
{
}

/// The errors that the filter told are reported with the callback that they belong to and with
/// no other, and nothing else of a report changes.
pub proof fn an_error_is_reported_with_its_own_callback(
    state: WorkerState,
    event: DeviceEvent,
    told: Option<FilteredError>,
)
    ensures
        ({
            let report = state.telemetry(event, told);
            let own = event.generation == state.generation && event.feedback is Some && (
            told matches Some(error) && error.serial == event.diagnostics.callbacks);
            &&& own ==> report.raw_error_us == Some(told->0.raw_us) && report.filtered_error_us
                == Some(told->0.filtered_us)
            &&& !own ==> report == event.diagnostics
            &&& report == (Diagnostics {
                raw_error_us: report.raw_error_us,
                filtered_error_us: report.filtered_error_us,
                ..event.diagnostics
            })
        }),
{
}

/// A new generation forgets all that belonged to the old one and begins its timeline at the
/// version of that moment; what was counted stays. In the same generation nothing changes.
pub proof fn a_new_generation_forgets_the_old(state: WorkerState, generation: u64, epoch: u64)
    ensures
        ({
            let after = state.in_generation(generation, epoch);
            &&& after.generation == generation
            &&& generation == state.generation ==> after == state
            &&& generation != state.generation ==> {
                &&& after.timeline == epoch
                &&& after.latest is None
                &&& after.pending_reanchor is None
                &&& after.snapshot is None
                &&& !after.pending_window
            }
            &&& after.startup_reanchors == state.startup_reanchors
            &&& after.correction_reanchors == state.correction_reanchors
            &&& after.last_reanchor_error_us == state.last_reanchor_error_us
            &&& after.applied_delay_us == state.applied_delay_us
            &&& after.prepared_base == state.prepared_base
        }),
{
}

/// An anchor is asked for exactly where it is explicit or a correction asks for one on the
/// present timeline, a window is free for it, and an event tells how far ahead output lies: by
/// the lowest latency that is known, else by the last one. It leaves room for one callback
/// only where it is explicit and output has not started.
pub proof fn an_anchor_is_asked_for_where_it_can_follow(
    state: WorkerState,
    explicit: bool,
    credits: usize,
)
    ensures
        ({
            let asked = state.pending_reanchor matches Some(request) && request.input.timeline
                == state.timeline;
            let wanted = state.anchor_wanted(explicit, credits);
            &&& wanted is Some <==> (explicit || asked) && credits > 0 && state.latest is Some
            &&& wanted matches Some(request) ==> {
                &&& request.explicit == explicit
                &&& state.latest->0.latency_floor_ns is Some ==> Some(request.ahead_ns)
                    == state.latest->0.latency_floor_ns
                &&& state.latest->0.latency_floor_ns is None ==> request.ahead_ns
                    == state.latest->0.playback_delta_ns
                &&& explicit && !state.latest->0.started ==> request.handoff_frames
                    == state.latest->0.callback_frames
                &&& !explicit || state.latest->0.started ==> request.handoff_frames == 0
            }
        }),
{
}

/// An anchor that was made begins its own timeline, with the delay that was asked for, takes
/// back what is prepared, answers every request, and is counted once, as what it was.
pub proof fn an_anchor_is_counted_once(
    state: WorkerState,
    explicit: bool,
    delay_us: u64,
    epoch: u64,
)
    ensures
        ({
            let after = state.anchored_at(explicit, delay_us, epoch);
            &&& after.timeline == epoch
            &&& after.applied_delay_us == delay_us
            &&& after.snapshot is None
            &&& !after.pending_window
            &&& after.pending_reanchor is None
            &&& explicit ==> after.correction_reanchors == state.correction_reanchors
            &&& !explicit ==> after.startup_reanchors == state.startup_reanchors
            &&& explicit && state.startup_reanchors < u64::MAX ==> after.startup_reanchors
                == state.startup_reanchors + 1
            &&& !explicit && state.correction_reanchors < u64::MAX ==> after.correction_reanchors
                == state.correction_reanchors + 1
            &&& after.startup_reanchors >= state.startup_reanchors
            &&& after.correction_reanchors >= state.correction_reanchors
            &&& after.latest == state.latest
            &&& after.generation == state.generation
            &&& after.prepared_base == state.prepared_base
            &&& after.last_reanchor_error_us == state.last_reanchor_error_us
        }),
{
}

/// A view is kept as it is exactly where it is of the present version and knows of every
/// buffer; it is extended where only buffers were added; it is made anew under every other
/// version. Without one the worker makes one, unless an anchor has to come first.
pub proof fn a_view_is_renewed_where_it_is_not_of_now(
    state: WorkerState,
    force_reanchor: bool,
    epoch: u64,
    next_source_id: u64,
)
    ensures
        ({
            let wanted = state.refresh_wanted(force_reanchor, epoch, next_source_id);
            &&& wanted is Keep <==> (state.snapshot matches Some(key) && key.epoch == epoch
                && key.next_source_id == next_source_id)
            &&& wanted is Extend <==> (state.snapshot matches Some(key) && key.epoch == epoch
                && key.next_source_id != next_source_id)
            &&& wanted is Wait <==> state.snapshot is None && force_reanchor
            &&& wanted is Rebuild <==> (state.snapshot is None && !force_reanchor) || (
            state.snapshot matches Some(key) && key.epoch != epoch)
        }),
{
}

/// The time that frames last is the nearest number of nanoseconds, and the even one of two
/// that are as near.
pub proof fn frames_last_to_the_nearest_nanosecond(frames: usize, sample_rate: u32)
    requires
        sample_rate > 0,
    ensures
        ({
            let exact = frames * 1_000_000_000;
            let told = lasting(frames, sample_rate) * sample_rate;
            &&& -(sample_rate as int) <= 2 * (told - exact) <= sample_rate
            &&& 2 * (told - exact) == sample_rate || 2 * (told - exact) == -(sample_rate as int)
                ==> lasting(frames, sample_rate) % 2 == 0
        }),
{
    let rate = sample_rate as int;
    let total = frames * 1_000_000_000;
    let whole = total / rate;
    let rest = total % rate;
    assert(total == whole * rate + rest && 0 <= rest < rate) by (nonlinear_arith)
        requires
            rate > 0,
            whole == total / rate,
            rest == total % rate,
    ;
    assert((whole + 1) * rate == whole * rate + rate) by (nonlinear_arith);
}

/// The same, as a duration and in nanoseconds.
pub proof fn durations_are_those_of_the_frames(
    frames: usize,
    sample_rate: u32,
    duration: Option<Duration>,
    ns: Option<u64>,
)
    requires
        call_ensures(frames_duration, (frames, sample_rate), duration),
        call_ensures(frames_ns, (frames, sample_rate), ns),
    ensures
        duration is None <==> sample_rate == 0,
        duration matches Some(d) ==> lasts(d, lasting(frames, sample_rate)),
        sample_rate == 0 ==> ns is None,
        ns matches Some(n) ==> n == lasting(frames, sample_rate),
        sample_rate > 0 && lasting(frames, sample_rate) <= u64::MAX ==> ns is Some,
{
}

/// An anchor is made for the instant at which output for it is heard: so far ahead of now as
/// was asked for, and by the frames of a callback more, to the nearest nanosecond. Without a
/// rate there is none.
pub proof fn an_anchor_lies_as_far_ahead_as_asked(
    now: Instant,
    request: AnchorRequest,
    sample_rate: u32,
    anchor: Option<Instant>,
)
    requires
        call_ensures(anchor_instant, (now, request, sample_rate), anchor),
    ensures
        sample_rate == 0 ==> anchor is None,
        anchor matches Some(t) ==> ({
            let more = (instant_ns(t) - instant_ns(now) - request.ahead_ns) * sample_rate
                - request.handoff_frames * 1_000_000_000;
            -(sample_rate as int) <= 2 * more <= sample_rate
        }),
        anchor matches Some(t) ==> request.handoff_frames == 0 ==> instant_ns(t) == instant_ns(now)
            + request.ahead_ns,
{
    assert(anchor_of(now, request, sample_rate, anchor));
    if sample_rate > 0 {
        frames_last_to_the_nearest_nanosecond(request.handoff_frames, sample_rate);
        match anchor {
            Some(t) => {
                assert(instant_ns(t) == instant_ns(now) + request.ahead_ns + lasting(
                    request.handoff_frames,
                    sample_rate,
                ));
                assert(0int / (sample_rate as int) == 0 && 0int % (sample_rate as int) == 0);
            },
            None => {},
        }
    }
}

/// The output delay is added to client time and taken off boundaries, to the microsecond, where
/// the result can be told.
pub proof fn the_output_delay_is_added_and_taken_off(
    client_us: i64,
    boundary: i64,
    delay_us: u64,
    time: Option<i64>,
    zone: Option<i64>,
)
    requires
        call_ensures(delayed, (client_us, delay_us), time),
        call_ensures(boundary_zone, (boundary, delay_us), zone),
    ensures
        time matches Some(t) ==> t - client_us == delay_us,
        time is None <==> client_us + delay_us > i64::MAX,
        zone matches Some(z) ==> boundary - z == delay_us,
        zone is None <==> boundary - delay_us < i64::MIN,
        zone == zone_of(boundary, delay_us),
{
}

/// The boundary that is told is the one that the start is armed for, or was won at; 0 where
/// there is none.
pub proof fn the_boundary_is_that_of_the_start(phase: Option<StartState>, boundary: i64)
    requires
        call_ensures(boundary_of, (phase,), boundary),
    ensures
        phase matches Some(StartState::Armed { start_at_zone_us }) ==> boundary == start_at_zone_us,
        phase matches Some(StartState::BoundaryWon { start_at_zone_us }) ==> boundary
            == start_at_zone_us,
        phase is None || phase == Some(StartState::Idle) ==> boundary == 0,
{
}

/// A model may be relied on for five seconds after its last sample.
pub proof fn a_model_is_relied_on_for_five_seconds(last_valid_t4_us: Option<i64>, limit: Option<i64>)
    requires
        call_ensures(valid_limit, (last_valid_t4_us,), limit),
    ensures
        limit matches Some(l) ==> (last_valid_t4_us matches Some(last) && l - last == 5_000_000),
        limit is None <==> (last_valid_t4_us matches Some(last) ==> last + 5_000_000 > i64::MAX),
{
}

/// The device is told what the worker knows: a timing is valid only under a synchronized model
/// that has a limit wherever it has a sample; where the source has not begun nothing is
/// expected; and a boundary before all time is due now.
pub proof fn the_device_is_told_what_is_known(
    facts: TimingFacts,
    expected: Option<Instant>,
    deadline: Option<Instant>,
    now: Instant,
    health: ModelHealth,
    valid_until: Option<Instant>,
    timing: Timing,
)
    requires
        call_ensures(timing_of, (facts, expected, deadline, now, health, valid_until), timing),
    ensures
        timing.epoch == facts.epoch,
        timing.generation == facts.generation,
        timing.delay_us == facts.delay_us,
        timing.boundary == facts.boundary,
        timing.pending == facts.pending,
        timing.valid_until == valid_until,
        facts.cursor_us is Some ==> timing.expected == expected,
        facts.cursor_us is None ==> timing.expected is None,
        facts.boundary_zone is Some ==> timing.boundary_deadline == deadline,
        facts.boundary_zone is None ==> timing.boundary_deadline == Some(now),
        timing.valid <==> health.synchronized && (health.last_valid_t4_us is Some ==> valid_until
            is Some),
{
}

} // verus!
