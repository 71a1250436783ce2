//! The preparation worker: it keeps a view of the source at hand and the device
//! in windows.
use super::device::Diagnostics;
use super::handoff_probe::timeline::feedback::{
    ModelHealth, ValidatedObservation, SAMPLE_LIFE_US,
};
use super::ingress::GateView;
use super::preparation::{fills, requests_made, source_after, Window};
use super::queue::{an_exhausted_source_stays_so, consumed, next_frame, PlaybackQueue, Source};
use super::runtime::{Timing, WINDOWS};
use super::source::{
    anchor, extended_by, followed, followed_under, follows, moved_from, not_moved, settled,
    tried_to_follow, Publication,
};
use super::transport::{reclaims, PrepareSide};
use crate::audio::{PlayerScope, RendererOperationOutcome, RendererOwner, StartState};
use crate::sync::raw_clock::{instant_ns, lasts};
use std::sync::Arc;
use std::time::{Duration, Instant};
use vstd::prelude::*;

verus! {

/// What the device reports after a callback.
#[derive(Clone, Copy, Debug, PartialEq, Eq)]
pub struct DeviceEvent {
    pub diagnostics: Diagnostics,
    pub generation: u64,
    pub serial: u64,
    pub callback_frames: usize,
    pub delay_us: u64,
    pub playback_delta_ns: u64,
    pub latency_floor_ns: Option<u64>,
    pub started: bool,
    pub feedback: Option<ValidatedObservation>,
}

/// What the correction filter tells of the last callback that it heard of.
#[derive(Clone, Copy, Debug, PartialEq, Eq, Structural)]
pub struct FilteredError {
    pub serial: u64,
    pub raw_us: i64,
    pub filtered_us: i64,
}

/// What a view of the source was made from: a version, and the next identity.
#[derive(Clone, Copy, Debug, PartialEq, Eq, Structural)]
pub struct SnapshotKey {
    pub epoch: u64,
    pub next_source_id: u64,
}

/// What the worker remembers between its turns.
#[derive(Clone, Copy, Debug, PartialEq, Eq)]
pub struct WorkerState {
    pub snapshot: Option<SnapshotKey>,
    pub prepared_base: u64,
    pub pending_window: bool,
    pub timeline: u64,
    pub generation: u64,
    pub applied_delay_us: u64,
    pub startup_reanchors: u64,
    pub correction_reanchors: u64,
    pub last_reanchor_error_us: Option<i64>,
    pub pending_reanchor: Option<ValidatedObservation>,
    pub latest: Option<DeviceEvent>,
}

/// A request for a new anchor, as far ahead as output lies, and by a callback
/// more if output has not started.
#[derive(Clone, Copy, Debug, PartialEq, Eq, Structural)]
pub struct AnchorRequest {
    pub explicit: bool,
    pub ahead_ns: u64,
    pub handoff_frames: usize,
}

/// What keeping the view of the source takes.
#[derive(Clone, Copy, Debug, PartialEq, Eq, Structural)]
pub enum Refresh {
    /// An anchor has to come first.
    Wait,
    /// The view is current; only the accounts are taken over.
    Keep,
    /// Buffers were added behind the view: it is extended, or made anew.
    Extend,
    /// The view is made anew.
    Rebuild,
}

/// The nearest count one on.
pub open spec fn counted(count: u64) -> u64 {
    if count == u64::MAX {
        count
    } else {
        (count + 1) as u64
    }
}

impl WorkerState {
    pub fn new(applied_delay_us: u64) -> (state: WorkerState)
        ensures
            state == (WorkerState {
                snapshot: None,
                prepared_base: 0,
                pending_window: false,
                timeline: 0,
                generation: 0,
                applied_delay_us,
                startup_reanchors: 0,
                correction_reanchors: 0,
                last_reanchor_error_us: None,
                pending_reanchor: None,
                latest: None,
            }),
    {
        WorkerState {
            snapshot: None,
            prepared_base: 0,
            pending_window: false,
            timeline: 0,
            generation: 0,
            applied_delay_us,
            startup_reanchors: 0,
            correction_reanchors: 0,
            last_reanchor_error_us: None,
            pending_reanchor: None,
            latest: None,
        }
    }

    /// The feedback of an event that may reach the correction filter: that of the
    /// present generation only.
    pub open spec fn heeded(self, event: DeviceEvent) -> Option<ValidatedObservation> {
        if event.generation == self.generation {
            event.feedback
        } else {
            None
        }
    }

    pub fn feedback_of(&self, event: DeviceEvent) -> (feedback: Option<ValidatedObservation>)
        ensures
            feedback == self.heeded(event),
    {
        if event.generation == self.generation {
            event.feedback
        } else {
            None
        }
    }

    /// What an event reports, with the errors that the filter told of its own callback.
    /// An event whose feedback did not reach the filter reports no errors.
    pub open spec fn telemetry(
        self,
        event: DeviceEvent,
        told: Option<FilteredError>,
    ) -> Diagnostics {
        match told {
            Some(error) => if self.heeded(event) is Some && error.serial
                == event.diagnostics.callbacks {
                Diagnostics {
                    raw_error_us: Some(error.raw_us),
                    filtered_error_us: Some(error.filtered_us),
                    ..event.diagnostics
                }
            } else {
                event.diagnostics
            },
            None => event.diagnostics,
        }
    }

    pub fn telemetry_of(&self, event: DeviceEvent, told: Option<FilteredError>) -> (report:
        Diagnostics)
        ensures
            report == self.telemetry(event, told),
    {
        let mut report = event.diagnostics;
        if self.feedback_of(event).is_some() {
            match told {
                Some(error) => {
                    if error.serial == report.callbacks {
                        report.raw_error_us = Some(error.raw_us);
                        report.filtered_error_us = Some(error.filtered_us);
                    }
                },
                None => {},
            }
        }
        report
    }

    /// What is published of a report: with the anchors that were made.
    pub fn reported(&self, report: Diagnostics) -> (published: Diagnostics)
        ensures
            published == (Diagnostics {
                startup_reanchors: self.startup_reanchors,
                correction_reanchors: self.correction_reanchors,
                last_reanchor_error_us: self.last_reanchor_error_us,
                ..report
            }),
    {
        let mut published = report;
        published.startup_reanchors = self.startup_reanchors;
        published.correction_reanchors = self.correction_reanchors;
        published.last_reanchor_error_us = self.last_reanchor_error_us;
        published
    }

    /// The state once an event is taken in, with what its feedback asks for.
    pub open spec fn taken_in(
        self,
        event: DeviceEvent,
        request: Option<ValidatedObservation>,
    ) -> WorkerState {
        if event.generation == self.generation {
            WorkerState {
                latest: Some(event),
                pending_reanchor: if request is Some {
                    request
                } else {
                    self.pending_reanchor
                },
                ..self
            }
        } else {
            self
        }
    }

    /// The state once events are taken in one after the other.
    pub open spec fn all_taken_in(
        self,
        events: Seq<(DeviceEvent, Option<ValidatedObservation>)>,
    ) -> WorkerState
        decreases events.len(),
    {
        if events.len() == 0 {
            self
        } else {
            self.all_taken_in(events.drop_last()).taken_in(events.last().0, events.last().1)
        }
    }

    /// Take in an event. One from another generation is telemetry only: it gives
    /// no startup latency and no correction history. A reanchor that its feedback
    /// asks for is kept until it is made.
    pub fn take_event(&mut self, event: DeviceEvent, request: Option<ValidatedObservation>) -> (
    current: bool)
        ensures
            current == (event.generation == old(self).generation),
            *final(self) == old(self).taken_in(event, request),
    {
        if event.generation != self.generation {
            return false;
        }
        if request.is_some() {
            self.pending_reanchor = request;
        }
        self.latest = Some(event);
        true
    }

    /// The state in a generation of the source, which began with a version.
    pub open spec fn in_generation(self, generation: u64, epoch: u64) -> WorkerState {
        if generation == self.generation {
            self
        } else {
            WorkerState {
                generation,
                timeline: epoch,
                latest: None,
                pending_reanchor: None,
                snapshot: None,
                pending_window: false,
                ..self
            }
        }
    }

    /// Take over a generation of the source. A new one forgets everything that
    /// belonged to the old.
    pub fn adopt_generation(&mut self, generation: u64, epoch: u64) -> (changed: bool)
        ensures
            changed == (generation != old(self).generation),
            *final(self) == old(self).in_generation(generation, epoch),
    {
        if generation == self.generation {
            return false;
        }
        self.generation = generation;
        self.latest = None;
        self.timeline = epoch;
        self.pending_reanchor = None;
        self.snapshot = None;
        self.pending_window = false;
        true
    }

    /// Whether a correction has asked for an anchor on the present timeline.
    pub open spec fn correction_asks(self) -> bool {
        self.pending_reanchor matches Some(request) && request.input.timeline == self.timeline
    }

    pub open spec fn anchor_wanted(self, explicit: bool, credits: usize) -> Option<AnchorRequest> {
        if (explicit || self.correction_asks()) && credits > 0 {
            match self.latest {
                Some(event) => Some(
                    AnchorRequest {
                        explicit,
                        ahead_ns: match event.latency_floor_ns {
                            Some(floor) => floor,
                            None => event.playback_delta_ns,
                        },
                        handoff_frames: if explicit && !event.started {
                            event.callback_frames
                        } else {
                            0
                        },
                    },
                ),
                None => None,
            }
        } else {
            None
        }
    }

    /// The anchor to ask for, if any. It takes a credit, so that its first window
    /// can follow, and an event that tells how far ahead output lies.
    pub fn anchor_request(&self, explicit: bool, credits: usize) -> (request: Option<AnchorRequest>)
        ensures
            request == self.anchor_wanted(explicit, credits),
    {
        let asked: bool = match self.pending_reanchor {
            Some(request) => request.input.timeline == self.timeline,
            None => false,
        };
        if !(explicit || asked) || credits == 0 {
            return None;
        }
        match self.latest {
            Some(event) => Some(
                AnchorRequest {
                    explicit,
                    ahead_ns: match event.latency_floor_ns {
                        Some(floor) => floor,
                        None => event.playback_delta_ns,
                    },
                    handoff_frames: if explicit && !event.started {
                        event.callback_frames
                    } else {
                        0
                    },
                },
            ),
            None => None,
        }
    }

    /// The state once an anchor has been committed.
    pub open spec fn anchored_at(
        self,
        explicit: bool,
        delay_us: u64,
        epoch: u64,
    ) -> WorkerState {
        WorkerState {
            applied_delay_us: delay_us,
            timeline: epoch,
            snapshot: None,
            pending_window: false,
            pending_reanchor: None,
            startup_reanchors: if explicit {
                counted(self.startup_reanchors)
            } else {
                self.startup_reanchors
            },
            correction_reanchors: if explicit {
                self.correction_reanchors
            } else {
                counted(self.correction_reanchors)
            },
            ..self
        }
    }

    /// An anchor has been committed: a new timeline begins.
    pub fn anchored(&mut self, explicit: bool, delay_us: u64, epoch: u64)
        ensures
            *final(self) == old(self).anchored_at(explicit, delay_us, epoch),
    {
        self.applied_delay_us = delay_us;
        self.timeline = epoch;
        self.snapshot = None;
        self.pending_window = false;
        if explicit {
            self.startup_reanchors = self.startup_reanchors.saturating_add(1);
        } else {
            self.correction_reanchors = self.correction_reanchors.saturating_add(1);
        }
        self.pending_reanchor = None;
    }

    /// Keep the error that a correction was anchored for, as the filter tells it once the
    /// anchor is made. An anchor that was asked for corrects none.
    pub fn note_anchor(&mut self, request: AnchorRequest, told: Option<FilteredError>)
        ensures
            *final(self) == (WorkerState {
                last_reanchor_error_us: if request.explicit {
                    old(self).last_reanchor_error_us
                } else {
                    match told {
                        Some(error) => Some(error.filtered_us),
                        None => None,
                    }
                },
                ..*old(self)
            }),
    {
        if !request.explicit {
            self.last_reanchor_error_us = match told {
                Some(error) => Some(error.filtered_us),
                None => None,
            };
        }
    }

    pub open spec fn refresh_wanted(
        self,
        force_reanchor: bool,
        epoch: u64,
        next_source_id: u64,
    ) -> Refresh {
        match self.snapshot {
            None => if force_reanchor {
                Refresh::Wait
            } else {
                Refresh::Rebuild
            },
            Some(key) => if key == (SnapshotKey { epoch, next_source_id }) {
                Refresh::Keep
            } else if key.epoch == epoch {
                Refresh::Extend
            } else {
                Refresh::Rebuild
            },
        }
    }

    /// What keeping the view takes. Adding buffers does not invalidate what is
    /// prepared, so the worker goes on where it is instead of preparing the same
    /// frames again.
    pub fn refresh(&self, force_reanchor: bool, epoch: u64, next_source_id: u64) -> (refresh:
        Refresh)
        ensures
            refresh == self.refresh_wanted(force_reanchor, epoch, next_source_id),
    {
        match self.snapshot {
            None => if force_reanchor {
                Refresh::Wait
            } else {
                Refresh::Rebuild
            },
            Some(key) => if key.epoch == epoch && key.next_source_id == next_source_id {
                Refresh::Keep
            } else if key.epoch == epoch {
                Refresh::Extend
            } else {
                Refresh::Rebuild
            },
        }
    }

    /// The view of the source may have been kept up; everything else is the same.
    pub open spec fn kept_up(self, before: WorkerState) -> bool {
        self == (WorkerState {
            snapshot: self.snapshot,
            prepared_base: self.prepared_base,
            pending_window: self.pending_window,
            ..before
        })
    }

    /// Whether the device has nothing to play yet.
    pub fn waits(&self, initialized: bool) -> (pending: bool)
        ensures
            pending == (!initialized || self.snapshot is None),
    {
        !initialized || self.snapshot.is_none()
    }
}

/// Delayed events only report: however many come of other generations, the worker's
/// state stays, none of their feedback may reach the filter, and each reports what the
/// device said of it.
pub proof fn delayed_events_only_report(
    state: WorkerState,
    events: Seq<(DeviceEvent, Option<ValidatedObservation>)>,
    told: Seq<Option<FilteredError>>,
)
    requires
        forall|i: int|
            0 <= i < events.len() ==> (#[trigger] events[i]).0.generation != state.generation,
        told.len() == events.len(),
    ensures
        state.all_taken_in(events) == state,
        forall|i: int|
            0 <= i < events.len() ==> {
                &&& state.heeded((#[trigger] events[i]).0) is None
                &&& state.telemetry(events[i].0, told[i]) == events[i].0.diagnostics
            },
    decreases events.len(),
{
    if events.len() > 0 {
        delayed_events_only_report(state, events.drop_last(), told.drop_last());
    }
}

/// Client time with the output delay added, if it can be told.
pub fn delayed(client_us: i64, delay_us: u64) -> (time: Option<i64>)
    ensures
        time == if client_us + delay_us <= i64::MAX {
            Some((client_us + delay_us) as i64)
        } else {
            None
        },
{
    let sum: i128 = client_us as i128 + delay_us as i128;
    if sum <= i64::MAX as i128 {
        Some(sum as i64)
    } else {
        None
    }
}

pub open spec fn zone_of(boundary: i64, delay_us: u64) -> Option<i64> {
    if boundary - delay_us >= i64::MIN {
        Some((boundary - delay_us) as i64)
    } else {
        None
    }
}

/// The zone time at which output for a boundary is due, with the output delay
/// taken off. `None` where that lies before all time: it is due already.
pub fn boundary_zone(boundary: i64, delay_us: u64) -> (zone: Option<i64>)
    ensures
        zone == zone_of(boundary, delay_us),
{
    let difference: i128 = boundary as i128 - delay_us as i128;
    if difference >= i64::MIN as i128 {
        Some(difference as i64)
    } else {
        None
    }
}

/// The boundary that a start phase names, or 0, also where the scope is stale.
pub open spec fn boundary_in(phase: Result<StartState, RendererOperationOutcome>) -> i64 {
    match phase {
        Ok(StartState::Armed { start_at_zone_us }) => start_at_zone_us,
        Ok(StartState::BoundaryWon { start_at_zone_us }) => start_at_zone_us,
        _ => 0,
    }
}

/// The boundary that a start phase names, or 0.
pub fn boundary_of(phase: Option<StartState>) -> (boundary: i64)
    ensures
        boundary == match phase {
            Some(StartState::Armed { start_at_zone_us }) => start_at_zone_us,
            Some(StartState::BoundaryWon { start_at_zone_us }) => start_at_zone_us,
            _ => 0,
        },
{
    match phase {
        Some(StartState::Armed { start_at_zone_us }) => start_at_zone_us,
        Some(StartState::BoundaryWon { start_at_zone_us }) => start_at_zone_us,
        _ => 0,
    }
}

/// Whether a timing can be relied on: the model is synchronized, and it is known
/// until when, unless there is no limit.
pub fn timing_holds(synchronized: bool, has_sample: bool, has_limit: bool) -> (valid: bool)
    ensures
        valid == (synchronized && (!has_sample || has_limit)),
{
    synchronized && (!has_sample || has_limit)
}

/// What the device needs to know of time, in source and zone time.
#[derive(Clone, Copy, Debug, PartialEq, Eq, Structural)]
pub struct TimingFacts {
    pub epoch: u64,
    pub generation: u64,
    pub delay_us: u64,
    pub cursor_us: Option<i64>,
    pub boundary: i64,
    pub boundary_zone: Option<i64>,
    pub pending: bool,
}

/// What the device is told of time, from the facts, the instants that the clock model
/// gives for them, and what the model says of itself. A boundary before all time is due
/// already.
pub fn timing_of(
    facts: TimingFacts,
    expected: Option<Instant>,
    deadline: Option<Instant>,
    now: Instant,
    health: ModelHealth,
    valid_until: Option<Instant>,
) -> (timing: Timing)
    ensures
        timing == (Timing {
            epoch: facts.epoch,
            generation: facts.generation,
            delay_us: facts.delay_us,
            expected: if facts.cursor_us is Some {
                expected
            } else {
                None
            },
            boundary: facts.boundary,
            boundary_deadline: if facts.boundary_zone is Some {
                deadline
            } else {
                Some(now)
            },
            valid_until,
            valid: health.synchronized && (health.last_valid_t4_us is None || valid_until is Some),
            pending: facts.pending,
        }),
{
    Timing {
        epoch: facts.epoch,
        generation: facts.generation,
        delay_us: facts.delay_us,
        expected: if facts.cursor_us.is_some() {
            expected
        } else {
            None
        },
        boundary: facts.boundary,
        boundary_deadline: if facts.boundary_zone.is_some() {
            deadline
        } else {
            Some(now)
        },
        valid_until,
        valid: timing_holds(
            health.synchronized,
            health.last_valid_t4_us.is_some(),
            valid_until.is_some(),
        ),
        pending: facts.pending,
    }
}

/// How long frames last, to the nearest nanosecond: half of one goes to the even one.
pub open spec fn lasting(frames: usize, sample_rate: u32) -> int {
    let rate = sample_rate as int;
    let whole = frames * 1_000_000_000 / rate;
    let rest = frames * 1_000_000_000 % rate;
    if 2 * rest > rate || (2 * rest == rate && whole % 2 == 1) {
        whole + 1
    } else {
        whole
    }
}

fn nearest_ns(frames: usize, sample_rate: u32) -> (ns: u128)
    requires
        sample_rate > 0,
    ensures
        ns == lasting(frames, sample_rate),
        ns <= u64::MAX * 1_000_000_000,
{
    let total: u128 = (frames as u128) * 1_000_000_000;
    let rate: u128 = sample_rate as u128;
    let whole: u128 = total / rate;
    let rest: u128 = total % rate;
    proof {
        assert(whole <= total && (rest > 0 ==> whole + 1 <= total)) by (nonlinear_arith)
            requires
                rate > 0,
                total >= 0,
                whole == total / rate,
                rest == total % rate,
        ;
    }
    if 2 * rest > rate || (2 * rest == rate && whole % 2 == 1) {
        whole + 1
    } else {
        whole
    }
}

/// How long frames last. `None` where there is no rate.
pub fn frames_duration(frames: usize, sample_rate: u32) -> (duration: Option<Duration>)
    ensures
        duration is Some <==> sample_rate > 0,
        duration matches Some(d) ==> lasts(d, lasting(frames, sample_rate)),
{
    if sample_rate == 0 {
        return None;
    }
    let ns: u128 = nearest_ns(frames, sample_rate);
    Some(Duration::new((ns / 1_000_000_000) as u64, (ns % 1_000_000_000) as u32))
}

/// How long frames last, in nanoseconds, as far as one word can tell it.
pub fn frames_ns(frames: usize, sample_rate: u32) -> (ns: Option<u64>)
    ensures
        ns == if sample_rate == 0 || lasting(frames, sample_rate) > u64::MAX {
            None
        } else {
            Some(lasting(frames, sample_rate) as u64)
        },
{
    if sample_rate == 0 {
        return None;
    }
    let ns: u128 = nearest_ns(frames, sample_rate);
    if ns > u64::MAX as u128 {
        None
    } else {
        Some(ns as u64)
    }
}

/// The instant that an anchor is made for: as far ahead of now as output lies, and by the
/// frames of a callback more where output has not started. `None` where there is no such
/// instant.
pub open spec fn anchor_of(
    now: Instant,
    request: AnchorRequest,
    sample_rate: u32,
    anchor: Option<Instant>,
) -> bool {
    if sample_rate == 0 {
        anchor is None
    } else {
        forall|t: Instant|
            anchor == Some(t) <==> {
                &&& #[trigger] instant_ns(t) == instant_ns(now) + request.ahead_ns + lasting(
                    request.handoff_frames,
                    sample_rate,
                )
                &&& exists|ahead: Instant| #[trigger]
                    instant_ns(ahead) == instant_ns(now) + request.ahead_ns
            }
    }
}

pub fn anchor_instant(now: Instant, request: AnchorRequest, sample_rate: u32) -> (anchor: Option<
    Instant,
>)
    ensures
        anchor_of(now, request, sample_rate, anchor),
{
    let second = frames_duration(request.handoff_frames, sample_rate)?;
    let first = Duration::from_nanos(request.ahead_ns);
    assert(lasts(first, request.ahead_ns as int));
    assert(lasts(second, lasting(request.handoff_frames, sample_rate)));
    match now.checked_add(first) {
        Some(ahead) => {
            assert(instant_ns(ahead) == instant_ns(now) + request.ahead_ns);
            ahead.checked_add(second)
        },
        None => None,
    }
}

/// Until when a model may be relied on, if there is a limit and it can be told.
pub fn valid_limit(last_valid_t4_us: Option<i64>) -> (limit: Option<i64>)
    ensures
        limit == match last_valid_t4_us {
            Some(last) => if last + SAMPLE_LIFE_US <= i64::MAX {
                Some((last + SAMPLE_LIFE_US) as i64)
            } else {
                None
            },
            None => None,
        },
{
    match last_valid_t4_us {
        Some(last) => last.checked_add(SAMPLE_LIFE_US),
        None => None,
    }
}

/// A view of the source that is extended with what was queued since it was made, once the
/// device was followed and had not come past it.
pub open spec fn view_extended(
    before: Worker,
    after: Worker,
    queue_before: PlaybackQueue,
    queue: PlaybackQueue,
) -> bool {
    &&& exists|seen: GateView| #[trigger]
        followed_under(
            *before.publication,
            before.owner,
            before.scope,
            queue_before,
            queue,
            seen,
        ) && before.publication.control.is_confirmed(seen, true)
    &&& after.private.source() == (Source {
        pending: extended_by(
            before.private.source().pending,
            before.private.next_source_id,
            queue.source().pending,
            queue.source().pending.len() as int,
        ),
        ..before.private.source()
    })
    &&& queue.settled_consumed <= before.state.prepared_base
}

/// A view of the source that could not be extended, or only by some of what was queued.
/// Everything else is as it was.
pub open spec fn view_partly_extended(
    before: Worker,
    after: Worker,
    queue: PlaybackQueue,
) -> bool {
    &&& after == (Worker { private: after.private, ..before })
    &&& after.private == before.private || exists|count: int|
        0 <= count < queue.source().pending.len() && after.private.source() == (Source {
            pending: #[trigger] extended_by(
                before.private.source().pending,
                before.private.next_source_id,
                queue.source().pending,
                count,
            ),
            ..before.private.source()
        })
}

/// Why a view of the source is not extended: the device could not be followed, has come past
/// the view, or played on meanwhile; or some of what was queued does not fit.
pub open spec fn not_extended(
    before: Worker,
    after: Worker,
    queue_before: PlaybackQueue,
    queue: PlaybackQueue,
) -> bool {
    &&& view_partly_extended(before, after, queue)
    &&& {
        ||| after == before && exists|seen: Option<GateView>| #[trigger]
            follows(
                *before.publication,
                before.owner,
                before.scope,
                queue_before,
                queue,
                seen,
                false,
            )
        ||| exists|seen: GateView| #[trigger]
            followed_under(
                *before.publication,
                before.owner,
                before.scope,
                queue_before,
                queue,
                seen,
            ) && if
                before.state.prepared_base < queue.settled_consumed {
                after == before
            } else {
                ||| after == before && before.publication.control.is_confirmed(seen, false)
                ||| before.publication.control.is_confirmed(seen, true)
            }
    }
}

/// A view of the source that is made anew from the frames that the device has consumed
/// on. Where the device cannot be followed, it stays as it is; where the device played on
/// meanwhile, it is given up.
pub open spec fn view_rebuilt(
    before: Worker,
    after: Worker,
    queue_before: PlaybackQueue,
    queue: PlaybackQueue,
) -> bool {
    ||| after.state == before.state && after.private == before.private && exists|
        seen: Option<GateView>,
    | #[trigger]
        follows(
                *before.publication,
                before.owner,
                before.scope,
                queue_before,
                queue,
                seen,
                false,
            )
    ||| exists|seen: GateView| #[trigger]
        followed_under(
                *before.publication,
                before.owner,
                before.scope,
                queue_before,
                queue,
                seen,
            ) && {
            ||| before.publication.control.is_confirmed(seen, false) && after.state == before.state
                && after.private.source().order().len() == 0
            ||| before.publication.control.is_confirmed(seen, true) && after.state == (WorkerState {
                snapshot: Some(
                    SnapshotKey {
                        epoch: seen.says().epoch,
                        next_source_id: queue.next_source_id,
                    },
                ),
                prepared_base: queue.settled_consumed,
                pending_window: false,
                ..before.state
            }) && after.private.source() == queue.source()
        }
}

/// How a worker keeps its view of the source, under the version that it found.
pub open spec fn view_kept(
    before: Worker,
    after: Worker,
    queue_before: PlaybackQueue,
    queue_after: PlaybackQueue,
    epoch: u64,
) -> bool {
    match before.state.refresh_wanted(
        queue_before.force_reanchor,
        epoch,
        queue_before.next_source_id,
    ) {
        Refresh::Wait => after == before && queue_after == queue_before,
        Refresh::Keep => after == before && tried_to_follow(
            *before.publication,
            before.owner,
            before.scope,
            queue_before,
            queue_after,
        ),
        Refresh::Extend => {
            ||| view_extended(before, after, queue_before, queue_after) && after.state == (
            WorkerState {
                snapshot: Some(SnapshotKey { epoch, next_source_id: queue_after.next_source_id }),
                ..before.state
            })
            ||| exists|between: Worker, midway: PlaybackQueue|
                midway.same_but_settled(queue_before) && #[trigger] not_extended(
                    before,
                    between,
                    queue_before,
                    midway,
                ) && view_rebuilt(between, after, midway, queue_after)
        },
        Refresh::Rebuild => view_rebuilt(before, after, queue_before, queue_after),
    }
}

/// A worker that has taken over the generation of the source: where that is a new one, its
/// view is empty.
pub open spec fn view_adopted(before: Worker, after: Worker, generation: u64) -> bool {
    if generation == before.state.generation {
        after.private == before.private
    } else {
        after.private.source().order().len() == 0
    }
}

/// A queue whose timeline was moved: once it has followed the device, the cursor goes where
/// the target asks for.
pub open spec fn anchored_to(
    worker: Worker,
    before: PlaybackQueue,
    after: PlaybackQueue,
    target: i64,
    explicit: bool,
) -> bool {
    exists|between: PlaybackQueue| #[trigger]
        moved_from(*worker.publication, worker.owner, worker.scope, before, between) && settled(
            before.source(),
            between.source(),
        ) && (anchor(between.source(), target, explicit) matches Some(cursor) && after.source() == (
        Source { cursor_us: cursor, cursor_remainder: 0, ..between.source() })
            && after.settled_consumed == between.settled_consumed)
}

/// What a worker found as it kept up: what the control gate showed as it took over the
/// generation, had made an anchor, and kept its view, and the target of the anchor.
pub struct KeepUpFound {
    pub target: i64,
    pub adopted: GateView,
    pub committed: GateView,
    pub refreshed: GateView,
}

/// How a worker has kept up. It takes over the generation, makes an anchor only where one is
/// wanted, and then keeps its view; a source that has not begun is left alone.
pub open spec fn kept_up_from(
    before: Worker,
    after: Worker,
    queue_before: PlaybackQueue,
    queue_after: PlaybackQueue,
    delay_us: u64,
    anchored: Option<AnchorRequest>,
    found: KeepUpFound,
    mid: Worker,
    between: PlaybackQueue,
) -> bool {
    let explicit = queue_before.force_reanchor;
    let gate = before.publication.control;
    let adopted = before.state.in_generation(
        queue_before.generation,
        found.adopted.says().epoch,
    );
    let wanted = adopted.anchor_wanted(explicit, before.producer.credits().len() as usize);
    &&& gate.shows(found.adopted)
    &&& mid.same_things(before)
    &&& mid.producer == before.producer
    &&& view_adopted(before, mid, queue_before.generation)
    &&& if !queue_before.initialized {
        &&& anchored is None
        &&& mid.state == adopted
        &&& after == mid
        &&& queue_after == queue_before
    } else {
        &&& gate.shows(found.refreshed)
        &&& view_kept(mid, after, between, queue_after, found.refreshed.says().epoch)
        &&& match anchored {
            Some(request) => {
                &&& wanted == Some(request)
                &&& gate.shows_again(found.committed)
                &&& mid.state == adopted.anchored_at(
                    explicit,
                    delay_us,
                    found.committed.says().epoch,
                )
                &&& anchored_to(before, queue_before, between, found.target, explicit)
                &&& !between.force_reanchor
                &&& between.next_source_id == queue_before.next_source_id
            },
            None => {
                &&& mid.state == adopted
                &&& between.same_but_settled(queue_before)
                &&& settled(queue_before.source(), between.source())
                &&& if wanted is None {
                    between == queue_before
                } else {
                    ||| not_moved(
                        *before.publication,
                        before.owner,
                        before.scope,
                        queue_before,
                        between,
                    )
                    ||| followed(
                        *before.publication,
                        before.owner,
                        before.scope,
                        queue_before,
                        between,
                    )
                }
            },
        }
    }
}

/// Why an anchor that is wanted was not made: the timeline could not be moved, or, once the
/// device was followed, there was no target, or nothing to play from it on.
pub open spec fn anchor_declined<F: FnOnce(AnchorRequest) -> Option<i64>>(
    before: Worker,
    queue_before: PlaybackQueue,
    between: PlaybackQueue,
    request: AnchorRequest,
    target: F,
) -> bool {
    ||| not_moved(*before.publication, before.owner, before.scope, queue_before, between)
    ||| {
        &&& followed(*before.publication, before.owner, before.scope, queue_before, between)
        &&& call_ensures(target, (request,), None) || exists|time: i64| #[trigger]
            call_ensures(target, (request,), Some(time)) && anchor(
                between.source(),
                time,
                queue_before.force_reanchor,
            ) is None
    }
}

/// The worker's own possessions.
pub struct Worker {
    pub state: WorkerState,
    pub private: PlaybackQueue,
    pub producer: PrepareSide,
    pub publication: Arc<Publication>,
    pub owner: RendererOwner,
    pub scope: PlayerScope,
    pub sample_rate: u32,
    pub channels: usize,
}

impl Worker {
    pub open spec fn well_formed(&self) -> bool {
        &&& self.private.well_formed()
        &&& self.channels > 0
        &&& self.sample_rate > 0
        &&& self.publication.channels == self.channels
        &&& self.state.pending_window ==> self.producer.building().source_base
            + self.producer.building().valid == self.state.prepared_base
    }

    /// What the worker holds for good.
    pub open spec fn same_things(&self, before: Worker) -> bool {
        &&& self.publication == before.publication
        &&& self.owner == before.owner
        &&& self.scope == before.scope
        &&& self.sample_rate == before.sample_rate
        &&& self.channels == before.channels
    }

    /// Take windows back from the device.
    pub fn reclaim(&mut self) -> (reclaimed: usize)
        requires
            old(self).well_formed(),
        ensures
            final(self).well_formed(),
            final(self).state == old(self).state,
            final(self).private == old(self).private,
            final(self).same_things(*old(self)),
            reclaims(old(self).producer, final(self).producer, reclaimed),
            final(self).producer.credits().len() == old(self).producer.credits().len() + reclaimed,
            reclaimed < old(self).producer.bound() ==> reclaimed
                >= old(self).producer.incoming().ready(),
    {
        self.producer.reclaim()
    }

    /// Take over the generation of the source, and give up the view of an old one.
    pub fn adopt(&mut self, queue: &PlaybackQueue) -> (changed: bool)
        requires
            old(self).well_formed(),
        ensures
            final(self).well_formed(),
            changed == (queue.generation != old(self).state.generation),
            !changed ==> *final(self) == *old(self),
            changed ==> final(self).private.source().order().len() == 0,
            exists|view: GateView| #[trigger]
                old(self).publication.control.shows(view) && final(self).state == old(
                    self,
                ).state.in_generation(queue.generation, view.says().epoch),
            final(self).same_things(*old(self)),
            final(self).producer == old(self).producer,
    {
        let view = self.publication.control.view();
        let changed: bool = self.state.adopt_generation(queue.generation, view.epoch());
        if changed {
            self.private.clear();
        }
        changed
    }

    /// Keep the view of the source at hand. The canonical queue is settled with
    /// the device on the way.
    pub fn refresh(&mut self, queue: &mut PlaybackQueue)
        requires
            old(self).well_formed(),
            old(queue).well_formed(),
        ensures
            final(self).well_formed(),
            final(queue).well_formed(),
            final(queue).same_but_settled(*old(queue)),
            settled_again(old(queue).source(), final(queue).source()),
            final(self).state.kept_up(old(self).state),
            final(self).same_things(*old(self)),
            final(self).producer == old(self).producer,
            old(self).state.snapshot is None && old(queue).force_reanchor ==> final(self).state
                == old(self).state,
            final(self).state.snapshot matches Some(key) ==> old(self).state.snapshot == Some(key)
                || key.next_source_id == final(queue).next_source_id,
            exists|view: GateView| #[trigger]
                old(self).publication.control.shows(view) && view_kept(
                    *old(self),
                    *final(self),
                    *old(queue),
                    *final(queue),
                    view.says().epoch,
                ),
    {
        let view = self.publication.control.view();
        let epoch: u64 = view.epoch();
        let publication = Arc::clone(&self.publication);
        let ghost before = queue.source();
        let ghost first = *self;
        let ghost canonical = *queue;
        proof {
            assert(settled(before, before));
        }
        match self.state.refresh(queue.force_reanchor, epoch, queue.next_source_id) {
            Refresh::Wait => {},
            Refresh::Keep => {
                let result = queue.reconcile_actual(&publication, &self.owner, self.scope);
                assert(result matches Ok(o) ==> follows(
                    *publication,
                    self.owner,
                    self.scope,
                    canonical,
                    *queue,
                    Some(o.seen()),
                    true,
                ));
            },
            Refresh::Extend => {
                let extended: bool = self.extend(queue, &publication);
                let ghost between = queue.source();
                proof {
                    assert(settled(before, between) && settled(between, between));
                }
                if extended {
                    let next_source_id: u64 = queue.next_source_id;
                    self.state.snapshot = Some(SnapshotKey { epoch, next_source_id });
                } else {
                    let ghost untouched = *self;
                    let ghost midway = *queue;
                    self.rebuild(queue, &publication);
                    assert(not_extended(first, untouched, canonical, midway) && view_rebuilt(
                        untouched,
                        *self,
                        midway,
                        *queue,
                    ));
                }
            },
            Refresh::Rebuild => {
                self.rebuild(queue, &publication);
            },
        }
        assert(view_kept(first, *self, canonical, *queue, epoch));
    }

    /// Extend the view, unless the device has come past it.
    fn extend(&mut self, queue: &mut PlaybackQueue, publication: &Publication) -> (extended: bool)
        requires
            old(self).well_formed(),
            old(queue).well_formed(),
            publication.channels > 0,
        ensures
            final(self).well_formed(),
            final(self).state == old(self).state,
            final(self).same_things(*old(self)),
            final(self).producer == old(self).producer,
            final(queue).well_formed(),
            final(queue).same_but_settled(*old(queue)),
            settled(old(queue).source(), final(queue).source()),
            tried_to_follow(
                *publication,
                old(self).owner,
                old(self).scope,
                *old(queue),
                *final(queue),
            ),
            publication == old(self).publication ==> if extended {
                view_extended(*old(self), *final(self), *old(queue), *final(queue))
            } else {
                not_extended(*old(self), *final(self), *old(queue), *final(queue))
            },
    {
        let view = match queue.reconcile_actual(publication, &self.owner, self.scope) {
            Ok(view) => view,
            Err(_) => {
                return false;
            },
        };
        let ghost seen = view.seen();
        assert(followed_under(
            *publication,
            self.owner,
            self.scope,
            *old(queue),
            *queue,
            seen,
        ));
        assert(follows(
            *publication,
            self.owner,
            self.scope,
            *old(queue),
            *queue,
            Some(seen),
            true,
        ));
        if self.state.prepared_base < queue.settled_consumed || !publication.control.confirm(
            &view,
        ) {
            return false;
        }
        queue.refresh_preparation_into(&mut self.private)
    }

    /// Make the view anew, from the frames that the device has consumed on.
    fn rebuild(&mut self, queue: &mut PlaybackQueue, publication: &Publication)
        requires
            old(self).well_formed(),
            old(queue).well_formed(),
            publication.channels > 0,
        ensures
            final(self).well_formed(),
            final(queue).well_formed(),
            final(queue).same_but_settled(*old(queue)),
            settled(old(queue).source(), final(queue).source()),
            tried_to_follow(
                *publication,
                old(self).owner,
                old(self).scope,
                *old(queue),
                *final(queue),
            ),
            final(self).same_things(*old(self)),
            final(self).producer == old(self).producer,
            publication == old(self).publication ==> view_rebuilt(
                *old(self),
                *final(self),
                *old(queue),
                *final(queue),
            ),
    {
        match queue.preparation_snapshot(
            publication,
            &self.owner,
            self.scope,
            &mut self.private,
        ) {
            Ok((epoch, next_source_id, base)) => {
                self.state.snapshot = Some(SnapshotKey { epoch, next_source_id });
                self.state.prepared_base = base;
                self.state.pending_window = false;
            },
            Err(_) => {},
        }
    }

    /// Keep up with the source: take over its generation, make the anchor that is
    /// asked for, and keep the view at hand. `target` gives the source time for an
    /// anchor; it is asked once what the device has played is taken over. The
    /// answer is the anchor that was made, if one was.
    pub fn keep_up<F: FnOnce(AnchorRequest) -> Option<i64>>(
        &mut self,
        queue: &mut PlaybackQueue,
        delay_us: u64,
        target: F,
    ) -> (anchored: Option<AnchorRequest>)
        requires
            old(self).well_formed(),
            old(queue).well_formed(),
            forall|request: AnchorRequest| call_requires(target, (request,)),
        ensures
            final(self).well_formed(),
            final(queue).well_formed(),
            final(queue).next_source_id == old(queue).next_source_id,
            final(queue).generation == old(queue).generation,
            final(self).same_things(*old(self)),
            final(self).producer == old(self).producer,
            anchored is Some ==> !final(queue).force_reanchor,
            exists|found: KeepUpFound, mid: Worker, between: PlaybackQueue| #[trigger]
                kept_up_from(
                    *old(self),
                    *final(self),
                    *old(queue),
                    *final(queue),
                    delay_us,
                    anchored,
                    found,
                    mid,
                    between,
                ) && (anchored matches Some(request) ==> call_ensures(
                    target,
                    (request,),
                    Some(found.target),
                )) && (anchored is None && old(queue).initialized ==> (old(
                    self,
                ).state.in_generation(
                    old(queue).generation,
                    found.adopted.says().epoch,
                ).anchor_wanted(
                    old(queue).force_reanchor,
                    old(self).producer.credits().len() as usize,
                ) matches Some(request) ==> anchor_declined(
                    *old(self),
                    *old(queue),
                    between,
                    request,
                    target,
                ))),
    {
        let _ = self.adopt(queue);
        let ghost view = choose|view: GateView| #[trigger]
            self.publication.control.shows(view) && self.state == old(self).state.in_generation(
                queue.generation,
                view.says().epoch,
            );
        let ghost mut found = KeepUpFound {
            target: 0,
            adopted: view,
            committed: view,
            refreshed: view,
        };
        let ghost mut mid = *self;
        let ghost mut between = *queue;
        let mut anchored: Option<AnchorRequest> = None;
        if queue.initialized {
            let explicit: bool = queue.force_reanchor;
            match self.state.anchor_request(explicit, self.producer.available_credits()) {
                Some(request) => {
                    let at = move || -> (time: Option<i64>)
                        requires
                            call_requires(target, (request,)),
                        ensures
                            call_ensures(target, (request,), time),
                        { target(request) };
                    match queue.try_reanchor_prepared(
                        &self.publication,
                        &self.owner,
                        self.scope,
                        at,
                        explicit,
                    ) {
                        Ok(Some(cursor)) => {
                            let committed = self.publication.control.view_again();
                            self.state.anchored(explicit, delay_us, committed.epoch());
                            anchored = Some(request);
                            proof {
                                found.committed = committed;
                                let (reached, time) = choose|between: PlaybackQueue, time: i64|
                                    #[trigger]
                                    moved_from(
                                        *old(self).publication,
                                        old(self).owner,
                                        old(self).scope,
                                        *old(queue),
                                        between,
                                    ) && #[trigger] call_ensures(
                                        target,
                                        (request,),
                                        Some(time),
                                    ) && settled(old(queue).source(), between.source()) && Some(
                                        cursor,
                                    ) == anchor(between.source(), time, explicit)
                                        && queue.source() == (Source {
                                        cursor_us: cursor,
                                        cursor_remainder: 0,
                                        ..between.source()
                                    }) && queue.settled_consumed == between.settled_consumed;
                                found.target = time;
                                assert(moved_from(
                                    *old(self).publication,
                                    old(self).owner,
                                    old(self).scope,
                                    *old(queue),
                                    reached,
                                ));
                                assert(anchored_to(
                                    *old(self),
                                    *old(queue),
                                    *queue,
                                    time,
                                    explicit,
                                ));
                            }
                        },
                        _ => {},
                    }
                },
                None => {},
            }
            proof {
                mid = *self;
                between = *queue;
            }
            self.refresh(queue);
            proof {
                found.refreshed = choose|view: GateView| #[trigger]
                    mid.publication.control.shows(view) && view_kept(
                        mid,
                        *self,
                        between,
                        *queue,
                        view.says().epoch,
                    );
                assert(settled(old(queue).source(), old(queue).source()));
            }
        }
        proof {
            assert(kept_up_from(
                *old(self),
                *self,
                *old(queue),
                *queue,
                delay_us,
                anchored,
                found,
                mid,
                between,
            ));
        }
        anchored
    }

    /// What the device needs to know of time, before a clock model turns it into
    /// instants.
    pub fn timing_facts(&self, queue: &PlaybackQueue) -> (facts: TimingFacts)
        ensures
            facts.generation == queue.generation,
            facts.delay_us == self.state.applied_delay_us,
            facts.cursor_us == if queue.initialized {
                Some(queue.cursor_us)
            } else {
                None
            },
            facts.boundary_zone == zone_of(facts.boundary, facts.delay_us),
            facts.pending == (!queue.initialized || self.state.snapshot is None),
            exists|view: GateView| #[trigger]
                self.publication.control.shows(view) && facts.epoch == view.says().epoch,
            exists|phase: Result<StartState, RendererOperationOutcome>| #[trigger]
                self.owner.shows_phase(self.scope, phase) && facts.boundary == boundary_in(phase),
    {
        let phase = self.owner.start_state(self.scope);
        assert(self.owner.shows_phase(self.scope, phase));
        let boundary: i64 = boundary_of(phase.ok());
        let delay_us: u64 = self.state.applied_delay_us;
        let view = self.publication.control.view();
        TimingFacts {
            epoch: view.epoch(),
            generation: queue.generation,
            delay_us,
            cursor_us: if queue.initialized {
                Some(queue.cursor_us)
            } else {
                None
            },
            boundary,
            boundary_zone: boundary_zone(boundary, delay_us),
            pending: self.state.waits(queue.initialized),
        }
    }

    /// Whether there is a window to publish: a view to prepare it from, a free
    /// window besides the one kept back, room on the way, and a frame to put into
    /// it, unless one is already waiting.
    pub open spec fn can_publish(&self, use_reserved_credit: bool) -> bool {
        let builder = self.producer.building();
        &&& self.state.snapshot is Some
        &&& self.producer.credits().len() > if use_reserved_credit {
            0int
        } else {
            1
        }
        &&& self.producer.outgoing().room() > 0
        &&& self.state.pending_window || {
            &&& builder.frames@.len() > 0
            &&& builder.pcm@.len() == builder.frames@.len() * self.channels
            &&& self.state.prepared_base + builder.frames@.len() <= u64::MAX
            &&& next_frame(
                self.private.source(),
                self.channels as int,
                self.sample_rate as int,
            ) is Some
        }
    }

    /// The place in the stream of the first window that is made from now on: one that
    /// is waiting goes out before it.
    pub open spec fn first_made(&self) -> int {
        self.producer.outgoing().sent() + if self.state.pending_window {
            1int
        } else {
            0
        }
    }

    /// Prepare and publish windows, as long as there are free ones. One is kept
    /// back for a new anchor; an anchor that was just made may use it for its
    /// first window. A window that cannot be published stays in the builder.
    #[verifier::rlimit(60)]
    pub fn prepare_windows(&mut self, use_reserved_credit: bool) -> (published: usize)
        requires
            old(self).well_formed(),
        ensures
            final(self).well_formed(),
            published <= WINDOWS,
            old(self).can_publish(use_reserved_credit) ==> published > 0,
            published < WINDOWS ==> !final(self).can_publish(
                use_reserved_credit && published == 0,
            ),
            old(self).state.snapshot is None ==> published == 0 && *final(self) == *old(self),
            final(self).producer.credits().len() == old(self).producer.credits().len() - published,
            published > (if use_reserved_credit {
                1int
            } else {
                0
            }) ==> final(self).producer.credits().len() >= 1,
            final(self).producer.outgoing().sent() == old(self).producer.outgoing().sent()
                + published,
            final(self).producer.outgoing().stream() == old(self).producer.outgoing().stream(),
            exists|requests: int|
                requests >= 0 && final(self).private.source() == #[trigger] source_after(
                    old(self).private.source(),
                    requests,
                    old(self).channels as int,
                    old(self).sample_rate as int,
                ),
            consecutive(
                old(self).producer.outgoing().stream(),
                old(self).producer.outgoing().sent() as int,
                final(self).producer.outgoing().sent() as int,
            ),
            old(self).state.pending_window && published > 0
                ==> old(self).producer.outgoing().stream()[old(
                self,
            ).producer.outgoing().sent() as int] == old(self).producer.building(),
            old(self).state.pending_window && published == 0 ==> final(self).producer.building()
                == old(self).producer.building(),
            windows_made(
                *old(self),
                old(self).producer.outgoing().stream(),
                old(self).first_made(),
                old(self).producer.outgoing().sent() + published,
            ),
            final(self).state.pending_window && (published > 0 || !old(self).state.pending_window)
                ==> window_made(
                *old(self),
                asked_for(
                    old(self).producer.outgoing().stream(),
                    old(self).first_made(),
                    old(self).producer.outgoing().sent() + published,
                ),
                final(self).producer.building(),
            ),
            final(self).state.prepared_base >= old(self).state.prepared_base,
            old(self).first_made() < old(self).producer.outgoing().sent() + published
                ==> old(self).producer.outgoing().stream()[old(self).first_made()].source_base
                == old(self).state.prepared_base,
            published > 0 && !final(self).state.pending_window ==> ({
                let last = old(self).producer.outgoing().stream()[old(
                    self,
                ).producer.outgoing().sent() + published - 1];
                last.source_base + last.valid == final(self).state.prepared_base
            }),
            final(self).state == (WorkerState {
                prepared_base: final(self).state.prepared_base,
                pending_window: final(self).state.pending_window,
                ..old(self).state
            }),
    {
        let epoch: u64 = match self.state.snapshot {
            Some(key) => key.epoch,
            None => {
                proof {
                    assert(source_after(
                        self.private.source(),
                        0,
                        self.channels as int,
                        self.sample_rate as int,
                    ) == self.private.source());
                }
                return 0;
            },
        };
        let ghost stream = self.producer.outgoing().stream();
        let ghost first = self.producer.outgoing().sent() as int;
        let ghost c = self.channels as int;
        let ghost rate = self.sample_rate as int;
        let ghost s = self.private.source();
        let ghost made = self.first_made();
        let mut reserve: usize = if use_reserved_credit {
            0
        } else {
            1
        };
        let mut published: usize = 0;
        let ghost mut requests: int = 0;
        while published < WINDOWS
            invariant_except_break
                !self.state.pending_window ==> requests == asked_for(
                    stream,
                    made,
                    first + published,
                ),
                published == 0 ==> *self == *old(self) && reserve == if use_reserved_credit {
                    0int
                } else {
                    1
                },
            invariant
                published <= WINDOWS,
                old(self).state.snapshot is Some,
                self.well_formed(),
                c == self.channels,
                rate == self.sample_rate,
                self.channels == old(self).channels,
                self.sample_rate == old(self).sample_rate,
                stream == old(self).producer.outgoing().stream(),
                stream == self.producer.outgoing().stream(),
                first == old(self).producer.outgoing().sent(),
                self.producer.outgoing().sent() == first + published,
                self.producer.credits().len() == old(self).producer.credits().len() - published,
                reserve <= 1,
                !use_reserved_credit || published > 0 ==> reserve == 1,
                published > (if use_reserved_credit {
                    1int
                } else {
                    0
                }) ==> self.producer.credits().len() >= 1,
                s == old(self).private.source(),
                requests >= 0,
                self.private.source() == source_after(s, requests, c, rate),
                self.state.prepared_base >= old(self).state.prepared_base,
                self.state == (WorkerState {
                    prepared_base: self.state.prepared_base,
                    pending_window: self.state.pending_window,
                    ..old(self).state
                }),
                published > 0 && !self.state.pending_window ==> stream[first + published
                    - 1].source_base + stream[first + published - 1].valid
                    == self.state.prepared_base,
                published > 0 && self.state.pending_window ==> stream[first + published
                    - 1].source_base + stream[first + published - 1].valid
                    == self.producer.building().source_base,
                consecutive(stream, first, first + published),
                old(self).state.snapshot matches Some(key) && key.epoch == epoch,
                made == old(self).first_made(),
                first + published > made ==> stream[made].source_base
                    == old(self).state.prepared_base,
                first + published < made || (first + published == made
                    && !self.state.pending_window) ==> self.state.prepared_base
                    == old(self).state.prepared_base,
                first + published == made && self.state.pending_window
                    ==> self.producer.building().source_base == old(self).state.prepared_base,
                self.private.initialized == old(self).private.initialized,
                old(self).state.pending_window && published > 0 ==> stream[first]
                    == old(self).producer.building(),
                old(self).state.pending_window && published == 0 ==> self.producer.building()
                    == old(self).producer.building() && self.state.pending_window && requests == 0,
                windows_made(*old(self), stream, made, first + published),
                self.state.pending_window && first + published >= made ==> window_made(
                    *old(self),
                    asked_for(stream, made, first + published),
                    self.producer.building(),
                ),
                self.state.pending_window && first + published >= made ==> requests == asked_for(
                    stream,
                    made,
                    first + published,
                ) + requests_made(self.producer.building()),
            ensures
                published == 0 ==> !old(self).can_publish(use_reserved_credit),
                published < WINDOWS ==> !self.can_publish(use_reserved_credit && published == 0),
            decreases WINDOWS - published,
        {
            if self.producer.available_credits() <= reserve {
                break;
            }
            if !self.state.pending_window {
                let ghost here = self.private.source();
                let ghost blank = self.producer.building();
                let base: u64 = self.state.prepared_base;
                let channels: usize = self.channels;
                let sample_rate: u32 = self.sample_rate;
                let builder = self.producer.builder_mut();
                if !fits(builder, channels) {
                    break;
                }
                self.private.prepare_window(builder, epoch, base, channels, sample_rate);
                proof {
                    assert(fills(here, blank, self.producer.building(), c, rate));
                    assert(window_made(*old(self), requests, self.producer.building()));
                    lemma_source_after_adds(
                        s,
                        requests,
                        requests_made(self.producer.building()),
                        c,
                        rate,
                    );
                    requests = requests + requests_made(self.producer.building());
                }
                let builder = self.producer.builder_mut();
                let valid: usize = builder.valid;
                let empty: bool = valid == 0 && builder.skipped_tail.is_none();
                if empty {
                    proof {
                        if blank.frames@.len() > 0 {
                            an_exhausted_source_stays_so(here, c, rate);
                            assert(source_after(here, 1, c, rate) == consumed(
                                source_after(here, 0, c, rate),
                                c,
                                rate,
                            ));
                        }
                    }
                    break;
                }
                self.state.prepared_base = match self.state.prepared_base.checked_add(
                    valid as u64,
                ) {
                    Some(base) => base,
                    None => {
                        break;
                    },
                };
                self.state.pending_window = true;
            }
            let ghost built = self.producer.building();
            if !self.producer.publish() {
                break;
            }
            self.state.pending_window = false;
            reserve = 1;
            published += 1;
        }
        published
    }
}

/// What making the windows of a stretch asked of the source.
pub open spec fn asked_for(stream: Seq<Window>, from: int, to: int) -> int
    decreases to - from,
{
    if to <= from {
        0
    } else {
        asked_for(stream, from, to - 1) + requests_made(stream[to - 1])
    }
}

/// A window as a worker makes it after so many requests: of the version of its view,
/// and with what the source gives from there on, to the sample.
pub open spec fn window_made(worker: Worker, asked: int, window: Window) -> bool {
    let channels = worker.channels as int;
    let rate = worker.sample_rate as int;
    let here = source_after(worker.private.source(), asked, channels, rate);
    &&& asked >= 0
    &&& worker.state.snapshot matches Some(key) && window.epoch == key.epoch
    &&& window.cursor_before == if worker.private.initialized {
        Some(here.cursor_us)
    } else {
        None
    }
    &&& exists|blank: Window| #[trigger] fills(here, blank, window, channels, rate)
}

/// The windows of a stretch are made one after the other, each from where the one
/// before it left the source.
pub open spec fn windows_made(worker: Worker, stream: Seq<Window>, from: int, to: int) -> bool {
    forall|i: int|
        from <= i < to ==> window_made(worker, asked_for(stream, from, i), #[trigger] stream[i])
}

/// A source that has been settled once or twice.
pub open spec fn settled_again(before: Source, after: Source) -> bool {
    exists|between: Source| #[trigger]
        settled(before, between) && settled(between, after)
}

/// Whether a window can be refilled: its samples go with its frames.
fn fits(window: &Window, channels: usize) -> (fit: bool)
    ensures
        fit == (window.pcm@.len() == window.frames@.len() * channels),
{
    match window.frames.len().checked_mul(channels) {
        Some(samples) => window.pcm.len() == samples,
        None => {
            let _ = window.pcm.len();
            false
        },
    }
}

/// Each window goes on where the one before it ends.
pub open spec fn consecutive(stream: Seq<Window>, from: int, to: int) -> bool {
    forall|i: int|
        from < i < to ==> (#[trigger] stream[i]).source_base == stream[i - 1].source_base
            + stream[i - 1].valid
}

proof fn lemma_source_after_adds(
    s: Source,
    a: int,
    b: int,
    channels: int,
    rate: int,
)
    requires
        a >= 0,
        b >= 0,
    ensures
        source_after(source_after(s, a, channels, rate), b, channels, rate) == source_after(
            s,
            a + b,
            channels,
            rate,
        ),
    decreases b,
{
    if b > 0 {
        lemma_source_after_adds(s, a, b - 1, channels, rate);
    }
}

} // verus!
