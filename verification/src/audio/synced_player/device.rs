//! The device's callback, between the timestamps that the output gives and the
//! samples that the reader chooses.
use super::handoff_probe::timeline::feedback::{
    followed, looked, Observation, PlanMemory, PlanReading, ValidatedObservation,
    ValidatedPlanMailbox, ValidatedPlanReader,
};
use super::ingress::{CallbackGuard, ControlGate, GateView};
use super::reader::{could_return, exchanged, given_back, pipe_moved, renders, Reader, Rendered};
use super::ring::Inlet;
use super::runtime::{Timing, TimingMailbox};
use super::source::Publication;
use super::transport::{enters_lane, DeviceSide};
use super::worker::{counted, DeviceEvent};
use crate::audio::sync_correction::CorrectionSchedule;
use crate::audio::ScheduledStartOutcome;
use crate::sync::raw_clock::{instant_ns, lasts};
use std::sync::Arc;
use std::time::{Duration, Instant};
use vstd::prelude::*;

verus! {

/// How far before its time a source may start.
pub const START_TOLERANCE_NS: u64 = 1_000_000;

/// Why a timestamp is not a measured one.
#[derive(Clone, Copy, Debug, PartialEq, Eq, Structural)]
pub enum TimestampFallback {
    Unavailable,
    Unsupported,
    Invalid,
    NonMonotonic,
    ClockDomainMismatch,
}

/// What the output tells of itself, where it does.
#[derive(Clone, Copy, Debug, PartialEq, Eq, Structural)]
pub struct Evidence {
    pub xrun_count: Option<u64>,
    pub buffer_size_frames: Option<u64>,
}

/// The latency that a timestamp gives, if it is a measured one: it is no fallback, and
/// playback does not come before the callback.
pub fn measured_latency(fallback: bool, callback_ns: u64, playback_ns: u64) -> (latency_ns: Option<
    u64,
>)
    ensures
        latency_ns == if !fallback && playback_ns >= callback_ns {
            Some((playback_ns - callback_ns) as u64)
        } else {
            None
        },
{
    if !fallback && playback_ns >= callback_ns {
        Some(playback_ns - callback_ns)
    } else {
        None
    }
}

/// The whole microseconds between two captures, none where the later one comes first.
pub open spec fn gap_between(previous: Instant, captured_at: Instant) -> int {
    if instant_ns(captured_at) >= instant_ns(previous) {
        (instant_ns(captured_at) - instant_ns(previous)) / 1_000
    } else {
        0
    }
}

/// The time since the callback before, if there was one.
pub fn gap_since(previous: Option<Instant>, captured_at: Instant) -> (gap_us: Option<u64>)
    ensures
        gap_us == match previous {
            Some(previous) => Some(
                if gap_between(previous, captured_at) <= u64::MAX {
                    gap_between(previous, captured_at) as u64
                } else {
                    u64::MAX
                },
            ),
            None => None,
        },
{
    match previous {
        Some(previous) => {
            let micros: u128 = captured_at.duration_since(previous).as_micros();
            proof {
                let ns = instant_ns(captured_at) - instant_ns(previous);
                if ns >= 0 {
                    assert(ns / 1_000_000_000 * 1_000_000 + ns % 1_000_000_000 / 1_000 == ns
                        / 1_000);
                }
            }
            Some(
                if micros > u64::MAX as u128 {
                    u64::MAX
                } else {
                    micros as u64
                },
            )
        },
        None => None,
    }
}

/// What the device counts.
#[derive(Clone, Copy, Debug, PartialEq, Eq, Structural)]
pub struct Diagnostics {
    pub sample_rate: u32,
    pub generation: u64,
    pub callbacks: u64,
    pub requested_frames: u64,
    pub callback_frames: usize,
    pub max_callback_gap_us: u64,
    pub playback_delay_us: u64,
    pub fallback_unavailable: u64,
    pub fallback_unsupported: u64,
    pub fallback_invalid: u64,
    pub fallback_non_monotonic: u64,
    pub fallback_clock_domain_mismatch: u64,
    pub last_timestamp_fallback_callback: u64,
    pub insert_every: u32,
    pub drop_every: u32,
    pub inserted_frames: u64,
    pub dropped_frames: u64,
    pub underrun_frames: u64,
    pub silent_callbacks: u64,
    pub silent_frames: u64,
    pub output_xrun_count: Option<u64>,
    pub output_buffer_size_frames: Option<u64>,
    pub raw_error_us: Option<i64>,
    pub filtered_error_us: Option<i64>,
    pub startup_reanchors: u64,
    pub correction_reanchors: u64,
    pub last_reanchor_error_us: Option<i64>,
}

/// The nearest sum that can be held.
pub open spec fn plus(a: u64, b: int) -> u64 {
    if a + b <= u64::MAX {
        (a + b) as u64
    } else {
        u64::MAX
    }
}

fn sum(a: u64, b: usize) -> (total: u64)
    ensures
        total == plus(a, b as int),
{
    a.saturating_add(b as u64)
}

impl Diagnostics {
    /// Nothing counted yet.
    pub fn of_rate(sample_rate: u32) -> (diagnostics: Diagnostics)
        ensures
            diagnostics == (Diagnostics {
                sample_rate,
                generation: 0,
                callbacks: 0,
                requested_frames: 0,
                callback_frames: 0,
                max_callback_gap_us: 0,
                playback_delay_us: 0,
                fallback_unavailable: 0,
                fallback_unsupported: 0,
                fallback_invalid: 0,
                fallback_non_monotonic: 0,
                fallback_clock_domain_mismatch: 0,
                last_timestamp_fallback_callback: 0,
                insert_every: 0,
                drop_every: 0,
                inserted_frames: 0,
                dropped_frames: 0,
                underrun_frames: 0,
                silent_callbacks: 0,
                silent_frames: 0,
                output_xrun_count: None,
                output_buffer_size_frames: None,
                raw_error_us: None,
                filtered_error_us: None,
                startup_reanchors: 0,
                correction_reanchors: 0,
                last_reanchor_error_us: None,
            }),
    {
        Diagnostics {
            sample_rate,
            generation: 0,
            callbacks: 0,
            requested_frames: 0,
            callback_frames: 0,
            max_callback_gap_us: 0,
            playback_delay_us: 0,
            fallback_unavailable: 0,
            fallback_unsupported: 0,
            fallback_invalid: 0,
            fallback_non_monotonic: 0,
            fallback_clock_domain_mismatch: 0,
            last_timestamp_fallback_callback: 0,
            insert_every: 0,
            drop_every: 0,
            inserted_frames: 0,
            dropped_frames: 0,
            underrun_frames: 0,
            silent_callbacks: 0,
            silent_frames: 0,
            output_xrun_count: None,
            output_buffer_size_frames: None,
            raw_error_us: None,
            filtered_error_us: None,
            startup_reanchors: 0,
            correction_reanchors: 0,
            last_reanchor_error_us: None,
        }
    }

    /// The counters of fallbacks, with one more.
    pub open spec fn fallen_back(self, reason: TimestampFallback) -> Diagnostics {
        let noted = Diagnostics { last_timestamp_fallback_callback: self.callbacks, ..self };
        match reason {
            TimestampFallback::Unavailable => Diagnostics {
                fallback_unavailable: counted(self.fallback_unavailable),
                ..noted
            },
            TimestampFallback::Unsupported => Diagnostics {
                fallback_unsupported: counted(self.fallback_unsupported),
                ..noted
            },
            TimestampFallback::Invalid => Diagnostics {
                fallback_invalid: counted(self.fallback_invalid),
                ..noted
            },
            TimestampFallback::NonMonotonic => Diagnostics {
                fallback_non_monotonic: counted(self.fallback_non_monotonic),
                ..noted
            },
            TimestampFallback::ClockDomainMismatch => Diagnostics {
                fallback_clock_domain_mismatch: counted(self.fallback_clock_domain_mismatch),
                ..noted
            },
        }
    }

    /// The counters as a callback begins.
    pub open spec fn entered(
        self,
        frames: usize,
        playback_delay_us: u64,
        gap_us: Option<u64>,
        fallback: Option<TimestampFallback>,
        evidence: Evidence,
    ) -> Diagnostics {
        let begun = Diagnostics {
            callbacks: counted(self.callbacks),
            requested_frames: plus(self.requested_frames, frames as int),
            callback_frames: frames,
            output_xrun_count: evidence.xrun_count,
            output_buffer_size_frames: evidence.buffer_size_frames,
            raw_error_us: None,
            filtered_error_us: None,
            insert_every: 0,
            drop_every: 0,
            playback_delay_us,
            max_callback_gap_us: match gap_us {
                Some(gap) => if gap > self.max_callback_gap_us {
                    gap
                } else {
                    self.max_callback_gap_us
                },
                None => self.max_callback_gap_us,
            },
            ..self
        };
        match fallback {
            Some(reason) => begun.fallen_back(reason),
            None => begun,
        }
    }

    /// Count a callback as it begins: the frames that it is asked for, how far
    /// ahead they are played, the time since the last one, why its timestamp is
    /// not a measured one, if it is not, and what the output tells of itself.
    pub fn enter(
        &mut self,
        frames: usize,
        playback_delay_us: u64,
        gap_us: Option<u64>,
        fallback: Option<TimestampFallback>,
        evidence: Evidence,
    )
        ensures
            *final(self) == old(self).entered(
                frames,
                playback_delay_us,
                gap_us,
                fallback,
                evidence,
            ),
    {
        self.callbacks = self.callbacks.saturating_add(1);
        self.requested_frames = sum(self.requested_frames, frames);
        self.callback_frames = frames;
        self.output_xrun_count = evidence.xrun_count;
        self.output_buffer_size_frames = evidence.buffer_size_frames;
        self.raw_error_us = None;
        self.filtered_error_us = None;
        self.insert_every = 0;
        self.drop_every = 0;
        self.playback_delay_us = playback_delay_us;
        match gap_us {
            Some(gap) => {
                if gap > self.max_callback_gap_us {
                    self.max_callback_gap_us = gap;
                }
            },
            None => {},
        }
        match fallback {
            Some(reason) => {
                match reason {
                    TimestampFallback::Unavailable => {
                        self.fallback_unavailable = self.fallback_unavailable.saturating_add(1);
                    },
                    TimestampFallback::Unsupported => {
                        self.fallback_unsupported = self.fallback_unsupported.saturating_add(1);
                    },
                    TimestampFallback::Invalid => {
                        self.fallback_invalid = self.fallback_invalid.saturating_add(1);
                    },
                    TimestampFallback::NonMonotonic => {
                        self.fallback_non_monotonic = self.fallback_non_monotonic.saturating_add(1);
                    },
                    TimestampFallback::ClockDomainMismatch => {
                        self.fallback_clock_domain_mismatch =
                        self.fallback_clock_domain_mismatch.saturating_add(1);
                    },
                }
                self.last_timestamp_fallback_callback = self.callbacks;
            },
            None => {},
        }
    }

    /// Count one rendered block.
    pub fn add_block(&mut self, rendered: Rendered)
        ensures
            *final(self) == (Diagnostics {
                inserted_frames: plus(old(self).inserted_frames, rendered.inserted as int),
                dropped_frames: plus(old(self).dropped_frames, rendered.dropped as int),
                ..*old(self)
            }),
    {
        self.inserted_frames = sum(self.inserted_frames, rendered.inserted);
        self.dropped_frames = sum(self.dropped_frames, rendered.dropped);
    }

    /// The counters as a callback ends.
    pub open spec fn left(
        self,
        audible: bool,
        measured: bool,
        frames: usize,
        missing: u64,
        applied: CorrectionSchedule,
    ) -> Diagnostics {
        if audible {
            Diagnostics {
                insert_every: if measured {
                    applied.insert_every_n_frames
                } else {
                    self.insert_every
                },
                drop_every: if measured {
                    applied.drop_every_n_frames
                } else {
                    self.drop_every
                },
                underrun_frames: plus(self.underrun_frames, missing as int),
                ..self
            }
        } else {
            Diagnostics {
                silent_callbacks: counted(self.silent_callbacks),
                silent_frames: plus(self.silent_frames, frames as int),
                ..self
            }
        }
    }

    /// Count a callback as it ends: what it missed, or that it was silent.
    pub fn leave(
        &mut self,
        audible: bool,
        measured: bool,
        frames: usize,
        missing: u64,
        applied: CorrectionSchedule,
    )
        ensures
            *final(self) == old(self).left(audible, measured, frames, missing, applied),
    {
        if audible {
            if measured {
                self.insert_every = applied.insert_every_n_frames;
                self.drop_every = applied.drop_every_n_frames;
            }
            self.underrun_frames = self.underrun_frames.saturating_add(missing);
        } else {
            self.silent_callbacks = self.silent_callbacks.saturating_add(1);
            self.silent_frames = sum(self.silent_frames, frames);
        }
    }
}

/// What the device remembers of its output.
#[derive(Clone, Copy, Debug, PartialEq, Eq, Structural)]
pub struct OutputState {
    pub started: bool,
    pub minimum_epoch: u64,
    pub generation: Option<u64>,
    pub floor_ns: Option<u64>,
    pub last_ns: Option<u64>,
}

impl OutputState {
    /// Output that begins anew: not started, and no latency known.
    pub open spec fn anew(self) -> OutputState {
        OutputState { started: false, floor_ns: None, last_ns: None, ..self }
    }

    pub fn new() -> (state: OutputState)
        ensures
            state == (OutputState {
                started: false,
                minimum_epoch: 0,
                generation: None,
                floor_ns: None,
                last_ns: None,
            }),
    {
        OutputState {
            started: false,
            minimum_epoch: 0,
            generation: None,
            floor_ns: None,
            last_ns: None,
        }
    }

    fn begin_anew(&mut self)
        ensures
            *final(self) == old(self).anew(),
    {
        self.started = false;
        self.floor_ns = None;
        self.last_ns = None;
    }

    pub open spec fn after_clear(self, view: GateView) -> OutputState {
        if view.says().revoked && view.says().epoch > self.minimum_epoch {
            OutputState { minimum_epoch: view.says().epoch, ..self.anew() }
        } else {
            self
        }
    }

    /// A clear that has not been seen begins output anew.
    pub fn note_clear(&mut self, view: GateView)
        ensures
            *final(self) == old(self).after_clear(view),
    {
        if view.current_revoked() && view.epoch() > self.minimum_epoch {
            self.minimum_epoch = view.epoch();
            self.begin_anew();
        }
    }

    pub open spec fn in_generation(self, generation: u64) -> OutputState {
        if self.generation == Some(generation) {
            self
        } else {
            OutputState { generation: Some(generation), ..self.anew() }
        }
    }

    /// A new generation begins output anew.
    pub fn adopt(&mut self, generation: u64)
        ensures
            *final(self) == old(self).in_generation(generation),
    {
        if self.generation != Some(generation) {
            self.generation = Some(generation);
            self.begin_anew();
        }
    }

    pub open spec fn with_latency(self, measured_ns: Option<u64>) -> OutputState {
        match measured_ns {
            Some(measured) => OutputState {
                floor_ns: Some(
                    match self.floor_ns {
                        Some(floor) => if floor < measured {
                            floor
                        } else {
                            measured
                        },
                        None => measured,
                    },
                ),
                last_ns: Some(measured),
                ..self
            },
            None => self,
        }
    }

    /// Keep a measured latency, and the lowest one.
    pub fn measure(&mut self, measured_ns: Option<u64>)
        ensures
            *final(self) == old(self).with_latency(measured_ns),
    {
        match measured_ns {
            Some(measured) => {
                self.floor_ns = Some(
                    match self.floor_ns {
                        Some(floor) => if floor < measured {
                            floor
                        } else {
                            measured
                        },
                        None => measured,
                    },
                );
                self.last_ns = Some(measured);
            },
            None => {},
        }
    }

    /// How far ahead output is played: as measured, or as measured last, or by one
    /// period.
    pub fn ahead(&self, measured_ns: Option<u64>, period_ns: u64) -> (ahead_ns: u64)
        ensures
            ahead_ns == match measured_ns {
                Some(measured) => measured,
                None => match self.last_ns {
                    Some(last) => last,
                    None => period_ns,
                },
            },
    {
        match measured_ns {
            Some(measured) => measured,
            None => match self.last_ns {
                Some(last) => last,
                None => period_ns,
            },
        }
    }

    /// Whether there is something to play: prepared, and not from before the last
    /// clear.
    pub fn ready(&self, pending: bool, epoch: u64) -> (ready: bool)
        ensures
            ready == (!pending && epoch >= self.minimum_epoch),
    {
        !pending && epoch >= self.minimum_epoch
    }

    /// Start, once everything is ready and its time has come. A start is not taken
    /// back here.
    pub fn start(&mut self, ready: bool, valid: bool, due: bool) -> (started: bool)
        ensures
            *final(self) == (OutputState {
                started: old(self).started || (ready && valid && due),
                ..*old(self)
            }),
            started == final(self).started,
    {
        if ready && valid && due {
            self.started = true;
        }
        self.started
    }
}

/// What a callback may present to a start that is waiting: its boundary, once the
/// timing that knows that boundary says that it is due.
pub fn presentation_for(
    outcome: ScheduledStartOutcome,
    valid: bool,
    boundary: i64,
    due: bool,
) -> (presentation: Option<i64>)
    ensures
        presentation == match outcome {
            ScheduledStartOutcome::Waiting { start_at_zone_us } => if valid && boundary
                == start_at_zone_us && due {
                Some(start_at_zone_us)
            } else {
                None
            },
            _ => None,
        },
{
    match outcome {
        ScheduledStartOutcome::Waiting { start_at_zone_us } => if valid && boundary
            == start_at_zone_us && due {
            Some(start_at_zone_us)
        } else {
            None
        },
        _ => None,
    }
}

/// Whether a callback is heard after asking to start.
pub open spec fn heard(outcome: ScheduledStartOutcome) -> bool {
    outcome is Unscheduled || outcome is Started || outcome is BoundaryWon
}

pub fn is_heard(outcome: ScheduledStartOutcome) -> (audible: bool)
    ensures
        audible == heard(outcome),
{
    match outcome {
        ScheduledStartOutcome::Unscheduled => true,
        ScheduledStartOutcome::Started { .. } => true,
        ScheduledStartOutcome::BoundaryWon { .. } => true,
        _ => false,
    }
}

/// Give back the windows at the head that are older than a version.
pub fn drop_older(pipe: &mut DeviceSide, visible: &mut usize, epoch: u64)
    requires
        old(pipe).incoming().placed(),
        *old(visible) <= old(pipe).arrived(),
    ensures
        pipe_moved(*old(pipe), *final(pipe)),
        final(pipe).incoming().placed(),
        *final(visible) <= final(pipe).arrived(),
        *final(visible) <= *old(visible),
        final(pipe).coming() == old(pipe).coming().skip(*old(visible) - *final(visible)),
        forall|i: int|
            0 <= i < *old(visible) - *final(visible) ==> (#[trigger] old(pipe).coming()[i]).epoch
                < epoch,
        *final(visible) == 0 || final(pipe).held() is Some || final(pipe).coming()[0].epoch
            >= epoch,
{
    let ghost all = pipe.coming();
    let ghost budget = *visible;
    assert(all.skip(0) =~= all);
    while *visible > 0
        invariant_except_break
            pipe.held() is Some ==> old(pipe).held() is Some,
        invariant
            all == old(pipe).coming(),
            budget == *old(visible),
            budget <= all.len(),
            *visible <= budget,
            pipe_moved(*old(pipe), *pipe),
            pipe.incoming().placed(),
            *visible <= pipe.arrived(),
            pipe.coming() == all.skip(budget - *visible),
            forall|i: int| 0 <= i < budget - *visible ==> (#[trigger] all[i]).epoch < epoch,
        ensures
            *visible == 0 || pipe.held() is Some || pipe.coming()[0].epoch >= epoch,
        decreases *visible,
    {
        let older: bool = match pipe.peek() {
            Some(window) => window.epoch < epoch,
            None => false,
        };
        if !older {
            break;
        }
        let ghost here = *pipe;
        let ghost done = budget - *visible;
        assert(here.coming()[0] == all[done]);
        *visible = *visible - 1;
        let given: bool = pipe.retire();
        assert(here.coming().skip(1) =~= all.skip(done + 1));
        if !given {
            break;
        }
    }
}

/// One callback in progress.
#[derive(Clone, Copy, Debug, PartialEq, Eq)]
pub struct Turn {
    pub audible: bool,
    pub measured: bool,
    pub wanted: Option<CorrectionSchedule>,
    pub visible: usize,
    pub timeline: u64,
    pub delay_us: u64,
    pub ahead_ns: u64,
    pub playback: Instant,
    pub origin: Option<i64>,
    pub missing: u64,
}

/// What the output says as a callback begins.
#[derive(Clone, Copy, Debug)]
pub struct Entry {
    pub captured_at: Instant,
    pub now_us: i64,
    pub frames: usize,
    pub measured_ns: Option<u64>,
    pub period_ns: u64,
    pub playback_delay_us: u64,
    pub gap_us: Option<u64>,
    pub fallback: Option<TimestampFallback>,
    pub evidence: Evidence,
    pub configured_delay_us: u64,
    pub open: bool,
}

/// Whether one instant is at or after another.
fn reached(instant: Instant, due: Instant) -> (at_or_after: bool)
    ensures
        at_or_after == (instant_ns(instant) >= instant_ns(due)),
{
    instant.checked_duration_since(due).is_some()
}

/// The instant at which a callback's first frame is heard: so much later than the
/// callback was captured, or that moment itself where there is no such instant.
pub open spec fn heard_at(captured_at: Instant, ahead_ns: u64, playback: Instant) -> bool {
    let due = instant_ns(captured_at) + ahead_ns;
    ||| instant_ns(playback) == due
    ||| playback == captured_at && forall|t: Instant| #[trigger] instant_ns(t) != due
}

pub fn playback_of(captured_at: Instant, ahead_ns: u64) -> (playback: Instant)
    ensures
        heard_at(captured_at, ahead_ns, playback),
{
    let ahead = Duration::from_nanos(ahead_ns);
    assert(lasts(ahead, ahead_ns as int));
    match captured_at.checked_add(ahead) {
        Some(playback) => {
            assert(instant_ns(playback) == instant_ns(captured_at) + ahead_ns);
            playback
        },
        None => captured_at,
    }
}

/// Whether a timing is still current when a callback is captured: up to its last
/// instant, and always where it has none.
pub open spec fn is_current(timing: Timing, captured_at: Instant) -> bool {
    timing.valid_until matches Some(until) ==> instant_ns(captured_at) <= instant_ns(until)
}

/// Whether what is expected is due by the time a callback is heard. It may be a
/// millisecond early.
pub open spec fn is_due(timing: Timing, playback: Instant) -> bool {
    timing.expected matches Some(expected) && exists|tolerant: Instant|
        #[trigger] instant_ns(tolerant) == instant_ns(playback) + START_TOLERANCE_NS
            && instant_ns(tolerant) >= instant_ns(expected)
}

/// Whether the boundary of a start has come by the time a callback is heard.
pub open spec fn is_boundary_due(timing: Timing, playback: Instant) -> bool {
    timing.boundary_deadline matches Some(deadline) && instant_ns(playback) >= instant_ns(deadline)
}

/// What a timing says of a callback that is captured at one instant and heard at
/// another: whether it is current, whether what is expected is due, and whether the
/// boundary has come.
pub fn answers_at(timing: Timing, captured_at: Instant, playback: Instant) -> (answers: (
    bool,
    bool,
    bool,
))
    ensures
        answers == (
            is_current(timing, captured_at),
            is_due(timing, playback),
            is_boundary_due(timing, playback),
        ),
{
    let current: bool = match timing.valid_until {
        Some(until) => reached(until, captured_at),
        None => true,
    };
    let tolerance = Duration::from_nanos(START_TOLERANCE_NS);
    assert(lasts(tolerance, START_TOLERANCE_NS as int));
    let due: bool = match (timing.expected, playback.checked_add(tolerance)) {
        (Some(expected), Some(tolerant)) => {
            assert(instant_ns(tolerant) == instant_ns(playback) + START_TOLERANCE_NS);
            reached(tolerant, expected)
        },
        _ => false,
    };
    let boundary_due: bool = match timing.boundary_deadline {
        Some(deadline) => reached(playback, deadline),
        None => false,
    };
    (current, due, boundary_due)
}

/// The device's own possessions.
pub struct Device {
    pub publication: Arc<Publication>,
    pub pipe: DeviceSide,
    pub reader: Reader,
    pub timing: Arc<TimingMailbox>,
    pub cached_timing: Option<Timing>,
    pub plans: Arc<ValidatedPlanMailbox>,
    pub plan_reader: ValidatedPlanReader,
    pub events: Inlet<DeviceEvent>,
    pub state: OutputState,
    pub diagnostics: Diagnostics,
}

/// A plan that can be followed: a reanchor is none.
fn followable(plan: Option<CorrectionSchedule>) -> (kept: Option<CorrectionSchedule>)
    ensures
        kept == if plan matches Some(schedule) && schedule.reanchor {
            None
        } else {
            plan
        },
{
    match plan {
        Some(schedule) => if schedule.reanchor {
            None
        } else {
            plan
        },
        None => None,
    }
}

/// What a callback was told when it asked whether it is heard: which instants had
/// come, and what the start answered before and after its boundary was presented.
pub struct Answers {
    pub current: bool,
    pub due: bool,
    pub boundary_due: bool,
    pub first: ScheduledStartOutcome,
    pub second: ScheduledStartOutcome,
}

/// The answers that depend on time are those that the timing gives.
pub open spec fn timed(
    timing: Option<Timing>,
    captured_at: Instant,
    playback: Instant,
    answers: Answers,
) -> bool {
    timing matches Some(timing) ==> answers.current == is_current(timing, captured_at)
        && answers.due == is_due(timing, playback) && answers.boundary_due == is_boundary_due(
        timing,
        playback,
    )
}

/// What a callback found as it began: the control gate, the timing that was read,
/// when it is heard, and the answers that it got.
pub struct Found {
    pub view: GateView,
    pub timing: Option<Timing>,
    pub playback: Instant,
    pub answers: Answers,
}

/// The timing that a callback goes by: the one that it read, or the last one.
pub open spec fn timing_after(cached: Option<Timing>, found: Found) -> Option<Timing> {
    if found.timing is Some {
        found.timing
    } else {
        cached
    }
}

/// The output as a callback has begun, before it asks whether to start.
pub open spec fn state_begun(
    state: OutputState,
    cached: Option<Timing>,
    entry: Entry,
    found: Found,
) -> OutputState {
    let cleared = state.after_clear(found.view);
    let adopted = match timing_after(cached, found) {
        Some(timing) => cleared.in_generation(timing.generation),
        None => cleared,
    };
    adopted.with_latency(entry.measured_ns)
}

/// Whether a callback is heard, and the output after it has asked to start.
pub open spec fn audible_after(
    begun: OutputState,
    timing: Option<Timing>,
    entry: Entry,
    answers: Answers,
) -> (OutputState, bool) {
    match timing {
        None => (begun, false),
        Some(timing) => {
            let ready = !timing.pending && timing.epoch >= begun.minimum_epoch;
            let valid = timing.valid && answers.current;
            let started = begun.started || (ready && valid && answers.due);
            (
                OutputState { started, ..begun },
                entry.open && started && ready && heard(answers.second),
            )
        },
    }
}

/// What a callback presents to the start.
pub open spec fn presented(timing: Timing, answers: Answers) -> Option<i64> {
    match answers.first {
        ScheduledStartOutcome::Waiting { start_at_zone_us } => if timing.valid && answers.current
            && timing.boundary == start_at_zone_us && answers.boundary_due {
            Some(start_at_zone_us)
        } else {
            None
        },
        _ => None,
    }
}

/// What a waiting start answers is in keeping with what it was presented.
pub open spec fn start_consistent(timing: Option<Timing>, answers: Answers) -> bool {
    &&& answers.first matches ScheduledStartOutcome::BoundaryWon { start_at_zone_us } ==> false
    &&& timing matches Some(timing) ==> {
        &&& answers.second matches ScheduledStartOutcome::BoundaryWon { start_at_zone_us }
            ==> presented(timing, answers) matches Some(zone) && zone >= start_at_zone_us
    }
}

/// A callback that would be heard has asked the start twice: first with nothing, then with
/// what it has to present.
pub open spec fn start_asked(
    gate: ControlGate,
    begun: OutputState,
    timing: Option<Timing>,
    entry: Entry,
    answers: Answers,
) -> bool {
    timing matches Some(t) ==> {
        let started = audible_after(begun, timing, entry, answers).0.started;
        entry.open && started && !t.pending && t.epoch >= begun.minimum_epoch
            ==> gate.starts(None, answers.first) && gate.starts(
            presented(t, answers),
            answers.second,
        )
    }
}

/// A callback that has begun, exactly, from what it found.
pub open spec fn enters(
    gate: ControlGate,
    before: Device,
    after: Device,
    entry: Entry,
    turn: Turn,
    found: Found,
) -> bool {
    let timing = timing_after(before.cached_timing, found);
    let begun = state_begun(before.state, before.cached_timing, entry, found);
    let (state, audible) = audible_after(begun, timing, entry, found.answers);
    &&& gate.shows(found.view)
    &&& before.timing.gives(found.timing)
    &&& after.cached_timing == timing
    &&& after.state == state
    &&& turn.audible == audible
    &&& start_consistent(timing, found.answers)
    &&& start_asked(gate, begun, timing, entry, found.answers)
    &&& heard_at(entry.captured_at, turn.ahead_ns, found.playback)
    &&& turn.playback == found.playback
    &&& timed(timing, entry.captured_at, found.playback, found.answers)
    &&& turn.measured == (entry.measured_ns is Some)
    &&& turn.ahead_ns == match entry.measured_ns {
        Some(measured) => measured,
        None => match begun.last_ns {
            Some(last) => last,
            None => entry.period_ns,
        },
    }
    &&& turn.delay_us == match timing {
        Some(timing) => timing.delay_us,
        None => entry.configured_delay_us,
    }
    &&& turn.timeline == if found.view.says().revoked || found.view.says().reanchored {
        found.view.says().epoch
    } else {
        before.reader@.timeline
    }
    &&& after.diagnostics == (Diagnostics {
        generation: match timing {
            Some(timing) => timing.generation,
            None => before.diagnostics.generation,
        },
        ..before.diagnostics.entered(
            entry.frames,
            entry.playback_delay_us,
            entry.gap_us,
            entry.fallback,
            entry.evidence,
        )
    })
    &&& windows_dropped(
        before.pipe,
        after.pipe,
        !audible && (found.view.says().revoked || found.view.says().reanchored),
        found.view.says().epoch,
        turn.visible,
    )
}

/// How a callback finds the pipe, and what it leaves of it for its blocks. It may work
/// through the windows that have arrived. Of those, windows are given back on entry only
/// where they may be, from the head, and only those of an older version.
pub open spec fn windows_dropped(
    before: DeviceSide,
    after: DeviceSide,
    may: bool,
    epoch: u64,
    visible: usize,
) -> bool {
    exists|entered: DeviceSide, budget: usize| #[trigger]
        enters_lane(before, entered, budget) && {
            let dropped = budget - visible;
            &&& 0 <= dropped
            &&& pipe_moved(entered, after)
            &&& after.coming() == entered.coming().skip(dropped)
            &&& !may ==> after == entered && dropped == 0
            &&& forall|i: int| 0 <= i < dropped ==> (#[trigger] entered.coming()[i]).epoch < epoch
            &&& may ==> visible == 0 || after.held() is Some || after.coming()[0].epoch >= epoch
        }
}

/// The plan that a callback follows, from what its reader found in the mailbox.
pub open spec fn plans_followed(
    plans: ValidatedPlanMailbox,
    before: PlanMemory,
    after: PlanMemory,
    timeline: u64,
    now_us: i64,
    actual: CorrectionSchedule,
    wanted: Option<CorrectionSchedule>,
) -> bool {
    exists|reading: Option<PlanReading>|
        {
            let (memory, plan) = followed(
                looked(before, reading, timeline, now_us),
                timeline,
                now_us,
                actual,
            );
            &&& #[trigger] plans.gives(timeline, reading)
            &&& memory == after
            &&& wanted == match plan {
                Some(kept) => if kept matches Some(schedule) && schedule.reanchor {
                    None
                } else {
                    kept
                },
                None => Some(actual),
            }
        }
}

impl Device {
    pub open spec fn well_formed(&self) -> bool {
        &&& self.reader@.channels() > 0
        &&& !self.reader@.schedule.reanchor
        &&& self.pipe.incoming().placed()
    }

    /// What is shared with the worker and the owner is the same.
    pub open spec fn keeps_its_ends(&self, before: Device) -> bool {
        &&& self.publication == before.publication
        &&& self.timing == before.timing
        &&& self.plans == before.plans
    }

    /// Begin a callback: take over what the worker says of time, decide whether
    /// it is heard, which plan it follows, and how many windows it may work
    /// through. Windows from before a clear or a new timeline that a silent
    /// callback would not come past are given back.
    pub fn enter(&mut self, callback: &CallbackGuard<'_>, entry: Entry) -> (turn: Turn)
        requires
            old(self).well_formed(),
        ensures
            final(self).well_formed(),
            turn.visible <= final(self).pipe.arrived(),
            turn.wanted matches Some(plan) ==> !plan.reanchor,
            turn.origin is None,
            turn.missing == 0,
            !entry.open ==> !turn.audible,
            turn.audible ==> final(self).state.started,
            final(self).reader == old(self).reader,
            final(self).events == old(self).events,
            final(self).keeps_its_ends(*old(self)),
            exists|found: Found| #[trigger]
                enters(*callback.of(), *old(self), *final(self), entry, turn, found),
            plans_followed(
                *old(self).plans,
                old(self).plan_reader.memory(),
                final(self).plan_reader.memory(),
                turn.timeline,
                entry.now_us,
                old(self).reader@.schedule,
                turn.wanted,
            ),
    {
        self.diagnostics.enter(
            entry.frames,
            entry.playback_delay_us,
            entry.gap_us,
            entry.fallback,
            entry.evidence,
        );
        let view = callback.view();
        self.state.note_clear(view);
        let read = self.timing.read();
        match read {
            Some(timing) => {
                self.cached_timing = Some(timing);
            },
            None => {},
        }
        match self.cached_timing {
            Some(timing) => {
                self.state.adopt(timing.generation);
                self.diagnostics.generation = timing.generation;
            },
            None => {},
        }
        self.state.measure(entry.measured_ns);
        let ahead_ns: u64 = self.state.ahead(entry.measured_ns, entry.period_ns);
        let playback = playback_of(entry.captured_at, ahead_ns);
        let ghost begun = self.state;
        let audible: bool = self.decide_audible(callback, entry, playback);
        let ghost answers = choose|answers: Answers|
            #![trigger audible_after(begun, self.cached_timing, entry, answers)]
            (self.state, audible) == audible_after(begun, self.cached_timing, entry, answers)
                && start_consistent(self.cached_timing, answers) && start_asked(
                *callback.of(),
                begun,
                self.cached_timing,
                entry,
                answers,
            ) && timed(self.cached_timing, entry.captured_at, playback, answers);
        let ghost found = Found { view, timing: read, playback, answers };
        let timeline: u64 = self.reader.timeline_under(view);
        let actual: CorrectionSchedule = self.reader.schedule();
        let wanted: Option<CorrectionSchedule> = match self.plan_reader.read(
            &self.plans,
            timeline,
            entry.now_us,
            actual,
        ) {
            Some(plan) => followable(plan),
            None => Some(actual),
        };
        let mut visible: usize = self.pipe.enter();
        let ghost entered = self.pipe;
        assert(entered.coming().skip(0) =~= entered.coming());
        if !audible && (view.current_revoked() || view.timeline_reanchored()) {
            drop_older(&mut self.pipe, &mut visible, view.epoch());
        }
        let delay_us: u64 = match self.cached_timing {
            Some(timing) => timing.delay_us,
            None => entry.configured_delay_us,
        };
        let turn = Turn {
            audible,
            measured: entry.measured_ns.is_some(),
            wanted,
            visible,
            timeline,
            delay_us,
            ahead_ns,
            playback,
            origin: None,
            missing: 0,
        };
        assert(enters(*callback.of(), *old(self), *self, entry, turn, found));
        turn
    }

    /// Whether this callback is heard: the scope is open, output has started, what
    /// it plays is ready, and a scheduled start does not hold it back.
    fn decide_audible(
        &mut self,
        callback: &CallbackGuard<'_>,
        entry: Entry,
        playback: Instant,
    ) -> (audible: bool)
        ensures
            exists|answers: Answers|
                #![trigger audible_after(old(self).state, old(self).cached_timing, entry, answers)]
                (final(self).state, audible) == audible_after(
                    old(self).state,
                    old(self).cached_timing,
                    entry,
                    answers,
                ) && start_consistent(old(self).cached_timing, answers) && start_asked(
                    *callback.of(),
                    old(self).state,
                    old(self).cached_timing,
                    entry,
                    answers,
                ) && timed(
                    old(self).cached_timing,
                    entry.captured_at,
                    playback,
                    answers,
                ),
            *final(self) == (Device { state: final(self).state, ..*old(self) }),
    {
        let ghost mut answers = Answers {
            current: false,
            due: false,
            boundary_due: false,
            first: ScheduledStartOutcome::Closed,
            second: ScheduledStartOutcome::Closed,
        };
        let timing = match self.cached_timing {
            Some(timing) => timing,
            None => {
                assert(audible_after(self.state, self.cached_timing, entry, answers) == (
                    self.state,
                    false,
                ));
                return false;
            },
        };
        let (current, due, boundary_due): (bool, bool, bool) = answers_at(
            timing,
            entry.captured_at,
            playback,
        );
        let valid: bool = timing.valid && current;
        let ready: bool = self.state.ready(timing.pending, timing.epoch);
        proof {
            answers = Answers { current, due, boundary_due, ..answers };
        }
        let started: bool = self.state.start(ready, valid, due);
        if !(entry.open && started && ready) {
            assert(audible_after(old(self).state, self.cached_timing, entry, answers) == (
                self.state,
                false,
            ));
            return false;
        }
        let first = callback.decide_start(None);
        let presentation = presentation_for(first, valid, timing.boundary, boundary_due);
        let second = callback.decide_start(presentation);
        let audible: bool = is_heard(second);
        proof {
            answers = Answers { first, second, ..answers };
            assert(audible_after(old(self).state, self.cached_timing, entry, answers) == (
                self.state,
                audible,
            ));
        }
        audible
    }

    /// Render one block of a callback that is heard. All blocks of a callback
    /// share its windows.
    pub fn play_block(&mut self, callback: &CallbackGuard<'_>, turn: &mut Turn, output: &mut [i32])
        requires
            old(self).well_formed(),
            old(turn).visible <= old(self).pipe.arrived(),
            old(turn).wanted matches Some(plan) ==> !plan.reanchor,
            super::reader::whole_frames(old(output)@, old(self).reader@),
        ensures
            final(self).well_formed(),
            final(self).reader@.channels() == old(self).reader@.channels(),
            final(turn).visible <= final(self).pipe.arrived(),
            pipe_moved(old(self).pipe, final(self).pipe),
            final(output)@.len() == old(output)@.len(),
            final(self).state == old(self).state,
            final(self).keeps_its_ends(*old(self)),
            final(self).plan_reader == old(self).plan_reader,
            final(self).cached_timing == old(self).cached_timing,
            final(self).events == old(self).events,
            *final(turn) == (Turn {
                visible: final(turn).visible,
                origin: final(turn).origin,
                missing: final(turn).missing,
                ..*old(turn)
            }),
            old(turn).origin is Some ==> final(turn).origin == old(turn).origin,
            exists|
                view: GateView,
                started: super::reader::Reached,
                reached: super::reader::Reached,
                rendered: Rendered,
            | #[trigger]
                renders(
                    old(self).reader@,
                    final(self).reader@,
                    old(self).pipe,
                    final(self).pipe,
                    old(turn).visible,
                    final(turn).visible,
                    view,
                    started,
                    reached,
                    old(turn).measured,
                    old(turn).wanted,
                    final(output)@,
                    rendered,
                ) && final(turn).missing == plus(old(turn).missing, rendered.missing as int) && (
                old(turn).origin is None ==> final(turn).origin == rendered.source_cursor_us)
                    && final(self).diagnostics == (Diagnostics {
                    inserted_frames: plus(
                        old(self).diagnostics.inserted_frames,
                        rendered.inserted as int,
                    ),
                    dropped_frames: plus(
                        old(self).diagnostics.dropped_frames,
                        rendered.dropped as int,
                    ),
                    ..old(self).diagnostics
                }) && exchanged(
                    *callback.of(),
                    *old(self).publication.checkpoint,
                    *old(self).publication.consumed,
                    view,
                    started,
                    reached,
                    final(self).reader@.position,
                ),
    {
        let ghost before = self.pipe;
        let rendered = self.reader.render_with_budget(
            &mut self.pipe,
            callback,
            &self.publication.checkpoint,
            &self.publication.consumed,
            output,
            turn.measured,
            turn.wanted,
            &mut turn.visible,
        );
        let ghost after = self.reader@;
        let ghost left = turn.visible;
        let ghost samples = output@;
        let ghost (view, started, reached) = choose|
            view: GateView,
            started: super::reader::Reached,
            reached: super::reader::Reached,
        |
            renders(
                old(self).reader@,
                after,
                before,
                self.pipe,
                old(turn).visible,
                left,
                view,
                started,
                reached,
                old(turn).measured,
                old(turn).wanted,
                samples,
                rendered,
            ) && #[trigger] exchanged(
                *callback.of(),
                *self.publication.checkpoint,
                *self.publication.consumed,
                view,
                started,
                reached,
                after.position,
            );
        proof {
            let slack = given_back(before, self.pipe);
            assert(could_return(before, self.pipe, slack));
        }
        if turn.origin.is_none() {
            turn.origin = rendered.source_cursor_us;
        }
        turn.missing = sum(turn.missing, rendered.missing);
        self.diagnostics.add_block(rendered);
        assert(renders(
            old(self).reader@,
            self.reader@,
            old(self).pipe,
            self.pipe,
            old(turn).visible,
            turn.visible,
            view,
            started,
            reached,
            old(turn).measured,
            old(turn).wanted,
            output@,
            rendered,
        ));
    }

    /// End a callback: count it, and report it to the worker. A report that does
    /// not fit is dropped; it holds nothing that would have to be freed.
    pub fn leave(&mut self, turn: Turn, frames: usize) -> (event: DeviceEvent)
        ensures
            final(self).reader == old(self).reader,
            final(self).pipe == old(self).pipe,
            final(self).state == old(self).state,
            final(self).plan_reader == old(self).plan_reader,
            final(self).cached_timing == old(self).cached_timing,
            final(self).keeps_its_ends(*old(self)),
            final(self).diagnostics == old(self).diagnostics.left(
                turn.audible,
                turn.measured,
                frames,
                turn.missing,
                old(self).reader@.schedule,
            ),
            final(self).events.stream() == old(self).events.stream(),
            old(self).events.room() > 0 ==> final(self).events.sent() == old(self).events.sent()
                + 1,
            final(self).events.sent() == old(self).events.sent() || (final(self).events.sent()
                == old(self).events.sent() + 1
                && old(self).events.stream()[old(self).events.sent() as int] == event),
            event.diagnostics == final(self).diagnostics,
            event.generation == old(self).diagnostics.generation,
            event.serial == old(self).diagnostics.callbacks,
            event.callback_frames == frames,
            event.delay_us == turn.delay_us,
            event.playback_delta_ns == turn.ahead_ns,
            event.latency_floor_ns == old(self).state.floor_ns,
            event.started == old(self).state.started,
            event.feedback is Some == turn.origin is Some,
            event.feedback matches Some(feedback) ==> {
                &&& Some(feedback.input.source_cursor_us) == turn.origin
                &&& feedback.input.timeline == turn.timeline
                &&& feedback.input.serial == event.serial
                &&& feedback.input.actual_schedule == old(self).reader@.schedule
                &&& feedback.input.presentation == if turn.measured {
                    Some(turn.playback)
                } else {
                    None
                }
                &&& feedback.input.settled_seen == old(self).plan_reader.memory().settled_seen
                &&& feedback.reset_epoch == old(self).plan_reader.memory().reset_epoch
                &&& feedback.latency_floor_ns == old(self).state.floor_ns
            },
    {
        let applied: CorrectionSchedule = self.reader.schedule();
        self.diagnostics.leave(turn.audible, turn.measured, frames, turn.missing, applied);
        let feedback: Option<ValidatedObservation> = match turn.origin {
            Some(source_cursor_us) => Some(
                ValidatedObservation {
                    latency_floor_ns: self.state.floor_ns,
                    input: Observation {
                        settled_seen: self.plan_reader.settled_seen(),
                        timeline: turn.timeline,
                        serial: self.diagnostics.callbacks,
                        source_cursor_us,
                        presentation: if turn.measured {
                            Some(turn.playback)
                        } else {
                            None
                        },
                        actual_schedule: applied,
                    },
                    reset_epoch: self.plan_reader.reset_epoch(),
                },
            ),
            None => None,
        };
        let event = DeviceEvent {
            diagnostics: self.diagnostics,
            generation: self.diagnostics.generation,
            serial: self.diagnostics.callbacks,
            callback_frames: frames,
            delay_us: turn.delay_us,
            playback_delta_ns: turn.ahead_ns,
            latency_floor_ns: self.state.floor_ns,
            started: self.state.started,
            feedback,
        };
        let _ = self.events.push(event);
        event
    }
}

} // verus!
