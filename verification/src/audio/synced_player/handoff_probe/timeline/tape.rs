//! Tapes: windows of uncorrected PCM, prepared one at a time and corrected by the
//! device that plays them.
//!
//! A tape is a window, and the device takes its frames as the player's own reader
//! does. What differs is around it: tapes are made when they are needed, and the
//! device publishes its cadence and its last frame along with its position.
use super::checkpoint::{Cadence, CheckpointStep, PublishedCheckpoint};
use super::feedback::{
    followed, looked, Observation, PlanMailbox, PlanMemory, PlanReading, ValidatedObservation,
    ValidatedPlanMailbox, ValidatedPlanReader,
};
use super::{forks, Preparation};
use crate::audio::sync_correction::{steady, CorrectionSchedule};
use crate::audio::synced_player::handoff_probe::admission::{
    keeps_pace, kept_pace, not_validated, paced_under, SourceLedger,
};
use crate::audio::synced_player::handoff_probe::bounded::CreditSide;
use crate::audio::synced_player::handoff_probe::start::StartDecision;
use crate::audio::synced_player::device::{heard, is_heard};
use crate::audio::synced_player::ingress::control::control;
use crate::audio::synced_player::ingress::{CallbackGuard, ControlGate, GateView};
use crate::audio::synced_player::preparation::{
    chunk, fills, lemma_chunk_bounds, requests_made, source_after, Frame, Window,
};
use crate::audio::synced_player::queue::copy_samples;
use crate::audio::synced_player::reader::{
    begun, could_return, fill_silent, given_back, pipe_moved, renders, whole_frames, Reached,
    Reader, ReaderState, Rendered,
};
use crate::audio::synced_player::ring::Inlet;
use crate::audio::synced_player::shared::{got_u64, put_u64};
use crate::audio::synced_player::transport::{enters_lane, DeviceSide};
use crate::audio::{PlayerScope, RendererOwner, ScheduledStartOutcome};
use std::sync::atomic::{AtomicU64, Ordering};
use crate::sync::raw_clock::instant_ns;
use std::sync::Arc;
use std::time::Instant;
use vstd::prelude::*;

verus! {

/// An empty window of a size.
pub open spec fn blank(window: Window, frames: int, channels: int) -> bool {
    &&& window.sized(frames, channels)
    &&& window.valid == 0
    &&& window.skipped_tail is None
}

/// The frames of a tape: as many as are asked for, and no more than a window has.
pub open spec fn tape_frames(preparation: Preparation, count: usize) -> int {
    if count < preparation.window_frames {
        count as int
    } else {
        preparation.window_frames as int
    }
}

/// A tape holds what the source gives next.
pub open spec fn holds_next(preparation: Preparation, frames: int, tape: Window) -> bool {
    exists|empty: Window| #[trigger]
        blank(empty, frames, preparation.channels as int) && fills(
            preparation.cursor.source(),
            empty,
            tape,
            preparation.channels as int,
            preparation.rate as int,
        )
}

/// Where preparing a tape leaves its preparation: behind what was asked of the source, with
/// so many frames of output more, and with the last frame of the tape.
pub open spec fn moved_on(
    before: Preparation,
    after: Preparation,
    frames: int,
    tape: Window,
) -> bool {
    let channels = before.channels as int;
    &&& after.cursor.source() == source_after(
        before.cursor.source(),
        requests_made(tape),
        channels,
        before.rate as int,
    )
    &&& after.output_frames == before.output_frames + frames
    &&& after.last@ == if tape.valid > 0 {
        chunk(tape.pcm@, tape.valid - 1, channels)
    } else {
        before.last@
    }
    &&& after.cursor.same_but_source(before.cursor)
    &&& after == (Preparation {
        cursor: after.cursor,
        output_frames: after.output_frames,
        last: after.last,
        ..before
    })
}

/// Prepare a tape of so many frames, and no more than a window holds.
pub fn prepare_tape(
    preparation: &mut Preparation,
    epoch: u64,
    source_base: u64,
    count: usize,
) -> (tape: Window)
    requires
        old(preparation).well_formed(),
        old(preparation).output_frames + tape_frames(*old(preparation), count) <= u64::MAX,
    ensures
        final(preparation).well_formed(),
        holds_next(*old(preparation), tape_frames(*old(preparation), count), tape),
        moved_on(
            *old(preparation),
            *final(preparation),
            tape_frames(*old(preparation), count),
            tape,
        ),
        tape.epoch == epoch,
        tape.source_base == source_base,
        tape.cursor_before == if old(preparation).cursor.initialized {
            Some(old(preparation).cursor.cursor_us)
        } else {
            None
        },
{
    let size: usize = if count < preparation.window_frames {
        count
    } else {
        preparation.window_frames
    };
    let channels: usize = preparation.channels;
    let rate: u32 = preparation.rate;
    proof {
        assert(size * channels <= preparation.window_frames * channels) by (nonlinear_arith)
            requires
                size <= preparation.window_frames,
                channels > 0,
        ;
        assert(size * channels >= 0) by (nonlinear_arith)
            requires
                size >= 0,
                channels > 0,
        ;
    }
    let mut tape = Window {
        epoch,
        source_base,
        cursor_before: None,
        frames: vec![Frame::default(); size],
        pcm: vec![0; size * channels],
        valid: 0,
        skipped_tail: None,
    };
    let ghost empty = tape;
    let ghost first = preparation.cursor.source();
    preparation.cursor.prepare_window(&mut tape, epoch, source_base, channels, rate);
    proof {
        let c = channels as int;
        assert(blank(empty, size as int, c) && fills(first, empty, tape, c, rate as int));
        if tape.valid > 0 {
            lemma_chunk_bounds(tape.valid - 1, size as int, c);
        }
    }
    if tape.valid > 0 {
        copy_samples(
            preparation.last.as_mut_slice(),
            tape.pcm.as_slice(),
            (tape.valid - 1) * channels,
        );
        assert(preparation.last@ =~= chunk(tape.pcm@, tape.valid - 1, channels as int));
    }
    preparation.output_frames = preparation.output_frames + size as u64;
    tape
}

/// Whether the frames of a tape can be counted on.
fn output_fits(preparation: &Preparation, count: usize) -> (fit: bool)
    ensures
        fit == (preparation.output_frames + tape_frames(*preparation, count) <= u64::MAX),
{
    let size: usize = if count < preparation.window_frames {
        count
    } else {
        preparation.window_frames
    };
    preparation.output_frames.checked_add(size as u64).is_some()
}

/// One owner's preparation of tapes: a view of the source, and at most one tape
/// that is not published yet.
pub struct TapePreparation {
    pub source: Option<Preparation>,
    pub revision: Option<u64>,
    pub pending: Option<Window>,
    pub pipe: CreditSide<Window>,
    pub epoch: u64,
    pub source_base: u64,
}

/// A tape with no frame, and no source passed over.
pub open spec fn gives_nothing(tape: Window) -> bool {
    tape.valid == 0 && tape.skipped_tail is None
}

/// A tape is published, or it waits. With a credit and room it is published.
pub open spec fn handed_over(
    before: TapePreparation,
    after: TapePreparation,
    tape: Window,
    published: bool,
) -> bool {
    let sent = before.pipe.outgoing().sent() as int;
    &&& published ==> after.pending is None && before.pipe.outgoing().stream()[sent] == tape
    &&& !published ==> after.pending == Some(tape)
    &&& before.pipe.free() > 0 && before.pipe.outgoing().room() > 0 ==> published
}

/// One turn of a preparation: the tape that waits is handed over, or the next one that
/// the source gives. Where the source gives nothing, nothing is.
pub open spec fn pumped(
    before: TapePreparation,
    after: TapePreparation,
    count: usize,
    published: bool,
) -> bool {
    &&& after.epoch == before.epoch
    &&& after.revision == before.revision
    &&& after.source is Some == before.source is Some
    &&& after.pipe.outgoing().stream() == before.pipe.outgoing().stream()
    &&& after.pipe.outgoing().sent() == before.pipe.outgoing().sent() + if published {
        1int
    } else {
        0
    }
    &&& match (before.pending, before.source) {
        (Some(waiting), source) => {
            &&& after.source == source
            &&& after.source_base == before.source_base
            &&& handed_over(before, after, waiting, published)
        },
        (None, None) => !published && after.pending is None,
        (None, Some(source)) => if source.output_frames + tape_frames(source, count) > u64::MAX {
            !published && after == before
        } else {
            exists|tape: Window| #[trigger]
                holds_next(source, tape_frames(source, count), tape) && {
                    let next = before.source_base + tape.valid;
                    &&& tape.epoch == before.epoch
                    &&& tape.source_base == before.source_base
                    &&& moved_on(source, after.source->0, tape_frames(source, count), tape)
                    &&& if gives_nothing(tape) || next > u64::MAX {
                        !published && after.pending is None && after.source_base
                            == before.source_base
                    } else {
                        after.source_base == next && handed_over(before, after, tape, published)
                    }
                }
        },
    }
}

/// A preparation that is ready for its turn: its view is of the ledger's identities. It
/// is the one that was there, or one made anew from what the ledger has settled.
pub open spec fn made_ready(
    before: TapePreparation,
    ready: TapePreparation,
    ledger: SourceLedger,
) -> bool {
    &&& ready.pipe == before.pipe
    &&& ready.revision == Some(ledger.next_source_id)
    &&& ready.source is Some
    &&& ready == before || {
        &&& ready.pending is None
        &&& ready.source_base == ledger.settled
        &&& forks(ledger.source, ready.source->0)
    }
}

/// How a preparation is made ready: once the ledger has kept pace it is kept where it is of
/// the version that was seen and of the ledger's identities; otherwise its view is made anew,
/// of the version that is seen then.
pub open spec fn readied(
    gate: ControlGate,
    before: TapePreparation,
    ready: TapePreparation,
    ledger_before: SourceLedger,
    ledger_after: SourceLedger,
) -> bool {
    exists|between: SourceLedger, view: GateView| #[trigger]
        paced_under(gate, ledger_before, between, view) && if before.source is Some && before.epoch
            == view.says().epoch && before.revision == Some(between.next_source_id) {
            ready == before && ledger_after == between
        } else {
            exists|later: GateView| #[trigger]
                paced_under(gate, between, ledger_after, later) && gate.is_confirmed(later, true)
                    && ready.epoch == later.says().epoch && ready.pending is None
                    && ready.source_base == ledger_after.settled && (ready.source matches Some(
                    source,
                ) && forks(ledger_after.source, source))
        }
}

/// A ledger that has kept pace with the device once or twice.
pub open spec fn kept_pace_again(
    gate: ControlGate,
    before: SourceLedger,
    after: SourceLedger,
) -> bool {
    exists|between: SourceLedger| #[trigger]
        kept_pace(gate, before, between) && (after == between || kept_pace(gate, between, after))
}

/// A ledger that could not keep pace, or whose view could not be made anew once it had.
pub open spec fn turned_away(gate: ControlGate, before: SourceLedger, after: SourceLedger) -> bool {
    ||| exists|seen: Option<GateView>| #[trigger] keeps_pace(gate, before, after, seen, false)
    ||| exists|between: SourceLedger, seen: GateView| #[trigger]
        paced_under(gate, before, between, seen) && not_validated(gate, between, after)
}

impl TapePreparation {
    pub open spec fn well_formed(&self) -> bool {
        &&& self.pipe.well_formed()
        &&& self.source matches Some(source) ==> source.well_formed()
        &&& self.pending matches Some(tape) ==> tape.source_base + tape.valid == self.source_base
    }

    pub fn new(pipe: CreditSide<Window>) -> (tapes: TapePreparation)
        requires
            pipe.well_formed(),
        ensures
            tapes.well_formed(),
            tapes.pipe == pipe,
            tapes.source is None,
            tapes.pending is None,
    {
        TapePreparation {
            source: None,
            revision: None,
            pending: None,
            pipe,
            epoch: 0,
            source_base: 0,
        }
    }

    /// Begin with another view. The old one and its unpublished tape are given up
    /// before the new one is made.
    pub fn reset<F: FnOnce() -> Preparation>(
        &mut self,
        epoch: u64,
        source_base: u64,
        snapshot: F,
    )
        requires
            old(self).well_formed(),
            call_requires(snapshot, ()),
            forall|source: Preparation| #[trigger]
                call_ensures(snapshot, (), source) ==> source.well_formed(),
        ensures
            final(self).well_formed(),
            final(self).epoch == epoch,
            final(self).source_base == source_base,
            final(self).pending is None,
            final(self).source matches Some(source) && call_ensures(snapshot, (), source),
            final(self).pipe == old(self).pipe,
            final(self).revision == old(self).revision,
    {
        self.pending = None;
        self.source = None;
        self.epoch = epoch;
        self.source_base = source_base;
        let source = snapshot();
        self.source = Some(source);
    }

    /// Keep up with a ledger, and publish one tape. The view is made anew where
    /// the version or the identities have moved on; it is given up first, also
    /// where the new one has to be tried again. `Err` asks the caller to try
    /// again.
    pub fn pump_from_ledger(
        &mut self,
        ledger: &mut SourceLedger,
        gate: &ControlGate,
        count: usize,
    ) -> (result: Result<bool, ()>)
        requires
            old(self).well_formed(),
            old(ledger).well_formed(),
        ensures
            final(self).well_formed(),
            final(ledger).well_formed(),
            final(ledger).same_but_settled(*old(ledger)),
            kept_pace_again(*gate, *old(ledger), *final(ledger)),
            result matches Ok(published) ==> exists|ready: TapePreparation| #[trigger]
                made_ready(*old(self), ready, *final(ledger)) && readied(
                    *gate,
                    *old(self),
                    ready,
                    *old(ledger),
                    *final(ledger),
                ) && pumped(ready, *final(self), count, published),
            final(self).pipe.outgoing().stream() == old(self).pipe.outgoing().stream(),
            final(self).pipe.outgoing().sent() == old(self).pipe.outgoing().sent() + if result
                == Ok::<bool, ()>(true) {
                1int
            } else {
                0
            },
            result is Err && final(self).source is Some ==> *final(self) == *old(self),
            result is Err ==> turned_away(*gate, *old(ledger), *final(ledger)),
    {
        let version = ledger.preparation_version(gate);
        let ghost between = *ledger;
        proof {
            assert(version matches Ok(key) ==> keeps_pace(
                *gate,
                *old(ledger),
                between,
                Some(key.view),
                true,
            ));
            assert(kept_pace(*gate, *old(ledger), between));
        }
        let key = match version {
            Ok(key) => key,
            Err(_) => {
                return Err(());
            },
        };
        if self.source.is_none() || self.epoch != key.view.epoch() || self.revision != Some(
            key.next_source_id,
        ) {
            self.pending = None;
            self.source = None;
            assert(paced_under(*gate, *old(ledger), between, key.view));
            let (made, source) = match ledger.preparation_snapshot(gate) {
                Ok(made) => made,
                Err(_) => {
                    return Err(());
                },
            };
            self.source = Some(source);
            self.epoch = made.view.epoch();
            self.revision = Some(made.next_source_id);
            self.source_base = made.settled;
        }
        let ghost ready = *self;
        assert(made_ready(*old(self), ready, *ledger));
        assert(paced_under(*gate, *old(ledger), between, key.view));
        assert(readied(*gate, *old(self), ready, *old(ledger), *ledger));
        Ok(self.pump(count))
    }

    /// Publish the tape that waits, or prepare one and publish it. A tape that
    /// cannot be published waits. `false` where nothing was published.
    pub fn pump(&mut self, count: usize) -> (published: bool)
        requires
            old(self).well_formed(),
        ensures
            final(self).well_formed(),
            pumped(*old(self), *final(self), count, published),
    {
        if self.pending.is_none() {
            let mut source = match self.source.take() {
                Some(source) => source,
                None => {
                    return false;
                },
            };
            if !output_fits(&source, count) {
                self.source = Some(source);
                return false;
            }
            let tape = prepare_tape(&mut source, self.epoch, self.source_base, count);
            self.source = Some(source);
            proof {
                let was = old(self).source->0;
                assert(holds_next(was, tape_frames(was, count), tape));
            }
            if tape.valid == 0 && tape.skipped_tail.is_none() {
                return false;
            }
            self.source_base = match self.source_base.checked_add(tape.valid as u64) {
                Some(base) => base,
                None => {
                    return false;
                },
            };
            self.pending = Some(tape);
        }
        match self.pending.take() {
            Some(tape) => match self.pipe.publish(tape) {
                Ok(_) => true,
                Err(back) => {
                    self.pending = Some(back);
                    false
                },
            },
            None => false,
        }
    }
}

/// The device for tapes.
pub struct TapeDevice {
    pub owner: Option<(RendererOwner, PlayerScope)>,
    pub pipe: DeviceSide,
    pub gate: Arc<ControlGate>,
    pub progress: Arc<AtomicU64>,
    pub checkpoint: Arc<PublishedCheckpoint>,
    pub reader: Reader,
    pub feedback_serial: u64,
    pub feedback_origin: Option<i64>,
    pub latency_floor_ns: Option<u64>,
}

/// How far ahead of its capture an output is presented, if it is: in nanoseconds, as far as
/// one word can tell it.
pub open spec fn latency_of(captured_at: Instant, presentation: Option<Instant>) -> Option<u64> {
    match presentation {
        Some(instant) => {
            let ahead = instant_ns(instant) - instant_ns(captured_at);
            if ahead < 0 {
                None
            } else if ahead > u64::MAX {
                Some(u64::MAX)
            } else {
                Some(ahead as u64)
            }
        },
        None => None,
    }
}

pub fn measured_from(captured_at: Instant, presentation: Option<Instant>) -> (latency_ns: Option<
    u64,
>)
    ensures
        latency_ns == latency_of(captured_at, presentation),
{
    match presentation {
        Some(instant) => match instant.checked_duration_since(captured_at) {
            Some(ahead) => {
                let ns: u128 = ahead.as_secs() as u128 * 1_000_000_000
                    + ahead.subsec_nanos() as u128;
                Some(
                    if ns > u64::MAX as u128 {
                        u64::MAX
                    } else {
                        ns as u64
                    },
                )
            },
            None => None,
        },
        None => None,
    }
}

/// The lower of two latencies.
pub open spec fn lower(floor: Option<u64>, measured: u64) -> Option<u64> {
    match floor {
        Some(known) => if known < measured {
            Some(known)
        } else {
            Some(measured)
        },
        None => Some(measured),
    }
}

/// The number of the next report. It stays at the last one that there is.
pub open spec fn next_number(serial: u64) -> u64 {
    if serial == u64::MAX {
        u64::MAX
    } else {
        (serial + 1) as u64
    }
}

/// The latency floor after a callback: it is forgotten where the source was cleared, and
/// lowered by what was measured.
pub open spec fn floor_after(
    before: Option<u64>,
    view: GateView,
    measured: Option<u64>,
) -> Option<u64> {
    let kept = if view.says().revoked {
        None
    } else {
        before
    };
    match measured {
        Some(latency) => lower(kept, latency),
        None => kept,
    }
}

fn lowered(floor: Option<u64>, measured: u64) -> (next: Option<u64>)
    ensures
        next == lower(floor, measured),
{
    match floor {
        Some(known) => if known < measured {
            Some(known)
        } else {
            Some(measured)
        },
        None => Some(measured),
    }
}

/// What a device follows, given what it found in a mailbox for its timeline: the
/// plan, no plan, or, where nothing is known of the timeline, what it follows
/// already, unless the timeline is new. To reanchor is for the source, and no plan
/// for a device.
pub open spec fn to_follow(
    found: Option<Option<CorrectionSchedule>>,
    same_timeline: bool,
    actual: CorrectionSchedule,
) -> Option<CorrectionSchedule> {
    match found {
        Some(Some(plan)) => if plan.reanchor {
            None
        } else {
            Some(plan)
        },
        Some(None) => None,
        None => if same_timeline {
            Some(actual)
        } else {
            Some(steady())
        },
    }
}

/// The timeline that a reader is on once it has seen the control gate.
pub open spec fn timeline_seen(reader: ReaderState, seen: GateView) -> u64 {
    begun(reader, seen, false, None).timeline
}

/// What a device follows under what it has seen of the control gate, given what it found
/// for the timeline that it is on then.
pub open spec fn plan_under(
    reader: ReaderState,
    seen: GateView,
    found: Option<Option<CorrectionSchedule>>,
) -> Option<CorrectionSchedule> {
    to_follow(found, timeline_seen(reader, seen) == reader.timeline, reader.schedule)
}

/// What a device follows.
pub fn plan_to_follow(
    found: Option<Option<CorrectionSchedule>>,
    same_timeline: bool,
    actual: CorrectionSchedule,
) -> (wanted: Option<CorrectionSchedule>)
    ensures
        wanted == to_follow(found, same_timeline, actual),
{
    match found {
        Some(Some(plan)) => if plan.reanchor {
            None
        } else {
            Some(plan)
        },
        Some(None) => None,
        None => if same_timeline {
            Some(actual)
        } else {
            Some(CorrectionSchedule::default())
        },
    }
}

/// What a device publishes of itself once it has played so many frames: where its reader
/// is, if it is anywhere, with its cadence and its last frame.
pub open spec fn publishes(
    checkpoint: PublishedCheckpoint,
    reader: ReaderState,
    frames: usize,
) -> bool {
    reader.position matches Some(position) ==> checkpoint.makes(
        CheckpointStep::Publish {
            cadence: Cadence {
                schedule: reader.schedule,
                insert_counter: reader.counters.insert,
                drop_counter: reader.counters.drop,
            },
            position,
            visited: frames,
            last: Some(reader.last),
        },
    )
}

/// What a callback took from the shared memory and left there: the control gate showed its
/// view, whose notices were answered; the current source and the frames consumed were read
/// as it began, and stored as it ended, with what the device publishes of itself.
pub open spec fn passed_on(
    gate: ControlGate,
    before: TapeDevice,
    reader: ReaderState,
    view: GateView,
    started: Reached,
    reached: Reached,
    frames: int,
) -> bool {
    &&& gate.shows(view)
    &&& view.says().reanchored ==> gate.acknowledges()
    &&& view.says().revoked ==> gate.releases_current()
    &&& exists|later: GateView| #[trigger]
        gate.shows_again(later) && later.current == started.current
    &&& got_u64(*before.progress, started.consumed)
    &&& put_u64(*before.progress, reached.consumed)
    &&& publishes(*before.checkpoint, reader, frames as usize)
    &&& gate.makes_current(reached.current)
}

/// A callback that was played, exactly: from what the device found, when it began,
/// in the pipe, in the control gate and of what was consumed.
pub open spec fn played(
    gate: ControlGate,
    before: TapeDevice,
    after: TapeDevice,
    measured: bool,
    wanted: Option<CorrectionSchedule>,
    output: Seq<i32>,
    missing: usize,
    latency: Option<u64>,
) -> bool {
    exists|
        entered: DeviceSide,
        budget: usize,
        left: usize,
        view: GateView,
        started: Reached,
        reached: Reached,
        rendered: Rendered,
    | #[trigger]
        renders(
            before.reader@,
            after.reader@,
            entered,
            after.pipe,
            budget,
            left,
            view,
            started,
            reached,
            measured,
            wanted,
            output,
            rendered,
        ) && enters_lane(before.pipe, entered, budget) && pipe_moved(entered, after.pipe)
            && passed_on(
            gate,
            before,
            after.reader@,
            view,
            started,
            reached,
            output_frames(before, output),
        ) && after.keeps_its_ends(before)
            && missing == rendered.missing && after.feedback_origin == rendered.source_cursor_us
            && after.latency_floor_ns == floor_after(before.latency_floor_ns, view, latency)
}

/// A plan is the one for what was seen of the control gate and found in a mailbox.
pub open spec fn looked_up(
    gate: ControlGate,
    plans: PlanMailbox,
    reader: ReaderState,
    wanted: Option<CorrectionSchedule>,
) -> bool {
    exists|found: Option<Option<CorrectionSchedule>>, seen: GateView|
        {
            &&& #[trigger] gate.shows(seen)
            &&& #[trigger] plans.gives(timeline_seen(reader, seen), found)
            &&& wanted == plan_under(reader, seen, found)
        }
}

/// A callback that was played under what was found for its timeline.
pub open spec fn followed_found(
    gate: ControlGate,
    plans: PlanMailbox,
    before: TapeDevice,
    after: TapeDevice,
    measured: bool,
    output: Seq<i32>,
    missing: usize,
) -> bool {
    exists|wanted: Option<CorrectionSchedule>|
        looked_up(gate, plans, before.reader@, wanted) && #[trigger] played(
            gate,
            before,
            after,
            measured,
            wanted,
            output,
            missing,
            None,
        )
}

/// The same, where the plan comes with the validity of its model: the reader's
/// memory moves on with what it found.
pub open spec fn followed_checked(
    gate: ControlGate,
    plans: ValidatedPlanMailbox,
    before: TapeDevice,
    after: TapeDevice,
    memory: PlanMemory,
    memory_after: PlanMemory,
    measured: bool,
    now: i64,
    output: Seq<i32>,
    missing: usize,
    latency: Option<u64>,
) -> bool {
    exists|
        reading: Option<PlanReading>,
        seen: GateView,
        plan: Option<Option<CorrectionSchedule>>,
    |
        {
            &&& #[trigger] gate.shows(seen)
            &&& #[trigger] plans.gives(timeline_seen(before.reader@, seen), reading)
            &&& (memory_after, plan) == followed(
                looked(memory, reading, timeline_seen(before.reader@, seen), now),
                timeline_seen(before.reader@, seen),
                now,
                before.reader@.schedule,
            )
            &&& played(
                gate,
                before,
                after,
                measured,
                #[trigger] plan_under(before.reader@, seen, plan),
                output,
                missing,
                latency,
            )
        }
}

/// The number of a report plays no part in what is played.
proof fn lemma_numbered(
    gate: ControlGate,
    plans: PlanMailbox,
    before: TapeDevice,
    numbered: TapeDevice,
    after: TapeDevice,
    measured: bool,
    output: Seq<i32>,
    missing: usize,
)
    requires
        followed_found(gate, plans, numbered, after, measured, output, missing),
        numbered == (TapeDevice { feedback_serial: numbered.feedback_serial, ..before }),
    ensures
        followed_found(gate, plans, before, after, measured, output, missing),
{
    let wanted = choose|wanted: Option<CorrectionSchedule>|
        looked_up(gate, plans, numbered.reader@, wanted) && #[trigger] played(
            gate,
            numbered,
            after,
            measured,
            wanted,
            output,
            missing,
            None,
        );
    assert(played(gate, before, after, measured, wanted, output, missing, None));
}

/// What was measured lowers the floor that a callback left.
proof fn lemma_measured(
    gate: ControlGate,
    plans: ValidatedPlanMailbox,
    before: TapeDevice,
    mid: TapeDevice,
    after: TapeDevice,
    memory: PlanMemory,
    memory_after: PlanMemory,
    measured: bool,
    now: i64,
    output: Seq<i32>,
    missing: usize,
    latency: Option<u64>,
)
    requires
        followed_checked(
            gate,
            plans,
            before,
            mid,
            memory,
            memory_after,
            measured,
            now,
            output,
            missing,
            None,
        ),
        after == (TapeDevice { latency_floor_ns: after.latency_floor_ns, ..mid }),
        after.latency_floor_ns == match latency {
            Some(ns) => lower(mid.latency_floor_ns, ns),
            None => mid.latency_floor_ns,
        },
    ensures
        followed_checked(
            gate,
            plans,
            before,
            after,
            memory,
            memory_after,
            measured,
            now,
            output,
            missing,
            latency,
        ),
{
    let (reading, seen, plan) = choose|
        reading: Option<PlanReading>,
        seen: GateView,
        plan: Option<Option<CorrectionSchedule>>,
    |
        {
            &&& #[trigger] gate.shows(seen)
            &&& #[trigger] plans.gives(timeline_seen(before.reader@, seen), reading)
            &&& (memory_after, plan) == followed(
                looked(memory, reading, timeline_seen(before.reader@, seen), now),
                timeline_seen(before.reader@, seen),
                now,
                before.reader@.schedule,
            )
            &&& played(
                gate,
                before,
                mid,
                measured,
                #[trigger] plan_under(before.reader@, seen, plan),
                output,
                missing,
                None,
            )
        };
    let wanted = plan_under(before.reader@, seen, plan);
    let (entered, budget, left, view, started, reached, rendered) = choose|
        entered: DeviceSide,
        budget: usize,
        left: usize,
        view: GateView,
        started: Reached,
        reached: Reached,
        rendered: Rendered,
    | #[trigger]
        renders(
            before.reader@,
            mid.reader@,
            entered,
            mid.pipe,
            budget,
            left,
            view,
            started,
            reached,
            measured,
            wanted,
            output,
            rendered,
        ) && enters_lane(before.pipe, entered, budget) && pipe_moved(entered, mid.pipe)
            && passed_on(
            gate,
            before,
            mid.reader@,
            view,
            started,
            reached,
            output_frames(before, output),
        ) && mid.keeps_its_ends(before)
            && missing == rendered.missing && mid.feedback_origin == rendered.source_cursor_us
            && mid.latency_floor_ns == floor_after(before.latency_floor_ns, view, None);
    assert(renders(
        before.reader@,
        after.reader@,
        entered,
        after.pipe,
        budget,
        left,
        view,
        started,
        reached,
        measured,
        wanted,
        output,
        rendered,
    ));
    assert(played(gate, before, after, measured, wanted, output, missing, latency));
    assert(gate.shows(seen) && plans.gives(timeline_seen(before.reader@, seen), reading));
    assert(wanted == plan_under(before.reader@, seen, plan));
}

/// The frames of an output.
pub open spec fn output_frames(device: TapeDevice, output: Seq<i32>) -> int {
    output.len() as int / device.reader@.channels()
}

/// A callback entered a control gate, or found another one active.
pub open spec fn admits(gate: ControlGate, entered: bool) -> bool {
    exists|previous: u64| #[trigger]
        gate.is_entered(previous) && entered == !control(previous).active
}

/// A callback may play: its scope is open, and whoever decides lets it start.
pub open spec fn allowed<S: StartDecision>(
    device: TapeDevice,
    start: &S,
    presentation: Option<i64>,
    plays: bool,
) -> bool {
    ||| !plays && device.finds_closed(true)
    ||| device.finds_closed(false) && exists|decision: Result<ScheduledStartOutcome, ()>|
        #[trigger] call_ensures(S::decide, (start, presentation), decision) && plays == (
        decision matches Ok(outcome) && heard(outcome))
}

/// A callback of a device whose scope is closed or stale: it is silent, and
/// nothing is consumed.
pub open spec fn silenced(before: TapeDevice, after: TapeDevice, output: Seq<i32>) -> bool {
    &&& before.owner is Some
    &&& before.finds_closed(true)
    &&& after == before
    &&& output == Seq::new(output.len(), |i: int| 0i32)
}

impl TapeDevice {
    /// What is shared with others is the same.
    pub open spec fn keeps_its_ends(&self, before: TapeDevice) -> bool {
        &&& self.owner == before.owner
        &&& self.gate == before.gate
        &&& self.progress == before.progress
        &&& self.checkpoint == before.checkpoint
    }

    /// Whether the scope that this device plays for is closed or stale was looked up. A
    /// device without an owner plays.
    pub open spec fn finds_closed(&self, closed: bool) -> bool {
        match self.owner {
            Some(held) => held.0.is_checked(held.1, closed),
            None => !closed,
        }
    }

    pub open spec fn well_formed(&self) -> bool {
        &&& self.reader@.channels() > 0
        &&& !self.reader@.schedule.reanchor
        &&& self.pipe.incoming().placed()
        &&& self.checkpoint.channels() == self.reader@.channels()
    }

    pub fn new(pipe: DeviceSide, checkpoint: Arc<PublishedCheckpoint>, channels: usize) -> (device:
        TapeDevice)
        requires
            channels > 0,
            checkpoint.channels() == channels,
            pipe.incoming().placed(),
        ensures
            device.well_formed(),
            device.pipe == pipe,
            device.checkpoint == checkpoint,
            device.reader@.channels() == channels,
            device.reader@.position is None,
            device.owner is None,
            device.feedback_serial == 0,
            device.latency_floor_ns is None,
    {
        TapeDevice {
            owner: None,
            pipe,
            gate: Arc::new(ControlGate::default()),
            progress: Arc::new(AtomicU64::new(0)),
            checkpoint,
            reader: Reader::new(channels),
            feedback_serial: 0,
            feedback_origin: None,
            latency_floor_ns: None,
        }
    }

    /// Whether the scope that this device plays for is closed or stale. Its output
    /// is then silent.
    fn reject_closed(&self, output: &mut [i32]) -> (rejected: bool)
        ensures
            final(output)@.len() == old(output)@.len(),
            rejected ==> final(output)@ == Seq::new(old(output)@.len(), |i: int| 0i32),
            !rejected ==> final(output)@ == old(output)@,
            rejected ==> self.owner is Some,
            self.finds_closed(rejected),
    {
        match &self.owner {
            Some(held) => {
                if held.0.needs_terminal_check(held.1) {
                    fill_silent(output);
                    true
                } else {
                    false
                }
            },
            None => false,
        }
    }

    /// The plan to follow from a mailbox.
    fn published_schedule(&self, callback: &CallbackGuard<'_>, plans: &PlanMailbox) -> (wanted:
        Option<CorrectionSchedule>)
        requires
            self.well_formed(),
        ensures
            wanted matches Some(plan) ==> !plan.reanchor,
            looked_up(*callback.of(), *plans, self.reader@, wanted),
    {
        let view = callback.view();
        let timeline: u64 = self.reader.timeline_under(view);
        let same: bool = timeline == self.reader.present_timeline();
        let found = plans.read(timeline);
        assert(plans.gives(timeline_seen(self.reader@, view), found));
        plan_to_follow(found, same, self.reader.schedule())
    }

    /// Render within a callback that is already active: the device's reading of
    /// the control gate, of the current source and of what was consumed decides
    /// the output.
    pub fn render_active(
        &mut self,
        callback: &CallbackGuard<'_>,
        output: &mut [i32],
        measured: bool,
        wanted: Option<CorrectionSchedule>,
    ) -> (missing: usize)
        requires
            old(self).well_formed(),
            whole_frames(old(output)@, old(self).reader@),
            measured && wanted is Some ==> !wanted->0.reanchor,
        ensures
            final(self).well_formed(),
            final(self).reader@.channels() == old(self).reader@.channels(),
            final(output)@.len() == old(output)@.len(),
            final(self).feedback_serial == old(self).feedback_serial,
            final(self).owner == old(self).owner,
            played(
                *callback.of(),
                *old(self),
                *final(self),
                measured,
                wanted,
                final(output)@,
                missing,
                None,
            ),
    {
        let view = callback.view();
        if view.timeline_reanchored() {
            callback.acknowledge_reanchor();
        }
        if view.current_revoked() {
            callback.finish_current();
            self.latency_floor_ns = None;
        }
        let mut visible: usize = self.pipe.enter();
        let ghost entered = self.pipe;
        let ghost budget = visible;
        let later = callback.view_again();
        let consumed: u64 = self.progress.load(Ordering::Acquire);
        let started = Reached { current: later.current(), consumed };
        let (rendered, reached): (Rendered, Reached) = self.reader.render_from(
            &mut self.pipe,
            view,
            started,
            output,
            measured,
            wanted,
            &mut visible,
        );
        proof {
            let slack = given_back(entered, self.pipe);
            assert(could_return(entered, self.pipe, slack));
        }
        self.feedback_origin = rendered.source_cursor_us;
        self.progress.store(reached.consumed, Ordering::Release);
        let frames: usize = self.reader.frames_in(output);
        self.publish(frames);
        callback.publish_current(reached.current);
        proof {
            assert(passed_on(
                *callback.of(),
                *old(self),
                self.reader@,
                view,
                started,
                reached,
                output_frames(*old(self), output@),
            ));
            assert(renders(
                old(self).reader@,
                self.reader@,
                entered,
                self.pipe,
                budget,
                visible,
                view,
                started,
                reached,
                measured,
                wanted,
                output@,
                rendered,
            ));
        }
        rendered.missing
    }

    /// Publish where the reader is, with its cadence and its last frame.
    fn publish(&self, frames: usize)
        requires
            self.well_formed(),
        ensures
            publishes(*self.checkpoint, self.reader@, frames),
    {
        match self.reader.place() {
            Some(position) => {
                let counters = self.reader.cadence_counters();
                let cadence = Cadence {
                    schedule: self.reader.schedule(),
                    insert_counter: counters.insert,
                    drop_counter: counters.drop,
                };
                self.checkpoint.publish(cadence, position, frames, Some(self.reader.last_frame()));
            },
            None => {},
        }
    }

    /// Render as a callback of its own. `None` where another callback is active.
    pub fn render(&mut self, output: &mut [i32], measured: bool, wanted: CorrectionSchedule) -> (missing:
        Option<usize>)
        requires
            old(self).well_formed(),
            whole_frames(old(output)@, old(self).reader@),
            !wanted.reanchor,
        ensures
            final(self).well_formed(),
            final(self).reader@.channels() == old(self).reader@.channels(),
            final(output)@.len() == old(output)@.len(),
            admits(*old(self).gate, missing is Some),
            missing is None ==> *final(self) == *old(self) && final(output)@ == old(output)@,
            missing matches Some(count) ==> {
                ||| silenced(*old(self), *final(self), final(output)@) && count == output_frames(
                    *old(self),
                    final(output)@,
                )
                ||| old(self).finds_closed(false) && played(
                    *old(self).gate,
                    *old(self),
                    *final(self),
                    measured,
                    Some(wanted),
                    final(output)@,
                    count,
                    None,
                )
            },
    {
        let gate = Arc::clone(&self.gate);
        let missing = match gate.begin_callback() {
            Some(callback) => {
                if self.reject_closed(output) {
                    Some(self.reader.frames_in(output))
                } else {
                    Some(self.render_active(&callback, output, measured, Some(wanted)))
                }
            },
            None => None,
        };
        missing
    }

    /// Render under the plan of a mailbox.
    pub fn render_published(
        &mut self,
        output: &mut [i32],
        measured: bool,
        plans: &PlanMailbox,
    ) -> (missing: Option<usize>)
        requires
            old(self).well_formed(),
            whole_frames(old(output)@, old(self).reader@),
        ensures
            final(self).well_formed(),
            final(self).reader@.channels() == old(self).reader@.channels(),
            final(output)@.len() == old(output)@.len(),
            admits(*old(self).gate, missing is Some),
            missing is None ==> *final(self) == *old(self) && final(output)@ == old(output)@,
            missing matches Some(count) ==> {
                ||| silenced(*old(self), *final(self), final(output)@) && count == output_frames(
                    *old(self),
                    final(output)@,
                )
                ||| old(self).finds_closed(false) && followed_found(
                    *old(self).gate,
                    *plans,
                    *old(self),
                    *final(self),
                    measured,
                    final(output)@,
                    count,
                )
            },
    {
        let gate = Arc::clone(&self.gate);
        let missing = match gate.begin_callback() {
            Some(callback) => {
                if self.reject_closed(output) {
                    Some(self.reader.frames_in(output))
                } else {
                    let wanted = self.published_schedule(&callback, plans);
                    Some(self.render_active(&callback, output, measured, wanted))
                }
            },
            None => None,
        };
        missing
    }

    /// Render if a scheduled start allows it. `None` where the callback is silent.
    pub fn render_scheduled<S: StartDecision>(
        &mut self,
        output: &mut [i32],
        presentation_zone_us: Option<i64>,
        measured: bool,
        plans: &PlanMailbox,
        start: &S,
    ) -> (missing: Option<usize>)
        requires
            old(self).well_formed(),
            whole_frames(old(output)@, old(self).reader@),
        ensures
            final(self).well_formed(),
            final(self).reader@.channels() == old(self).reader@.channels(),
            final(output)@.len() == old(output)@.len(),
            missing is None ==> *final(self) == *old(self),
            exists|previous: u64| #[trigger]
                old(self).gate.is_entered(previous) && if control(previous).active {
                    missing is None && final(output)@ == old(output)@
                } else {
                    &&& allowed(*old(self), start, presentation_zone_us, missing is Some)
                    &&& missing is None ==> final(output)@ == Seq::new(
                        old(output)@.len(),
                        |i: int| 0i32,
                    )
                },
            missing matches Some(count) ==> followed_found(
                *old(self).gate,
                *plans,
                *old(self),
                *final(self),
                measured,
                final(output)@,
                count,
            ),
    {
        let gate = Arc::clone(&self.gate);
        let missing = match gate.begin_callback() {
            Some(callback) => self.render_scheduled_active(
                &callback,
                output,
                presentation_zone_us,
                measured,
                plans,
                start,
            ),
            None => None,
        };
        missing
    }

    /// Render within a callback, if a scheduled start allows it. A callback that
    /// may not be heard consumes nothing.
    pub fn render_scheduled_active<S: StartDecision>(
        &mut self,
        callback: &CallbackGuard<'_>,
        output: &mut [i32],
        presentation_zone_us: Option<i64>,
        measured: bool,
        plans: &PlanMailbox,
        start: &S,
    ) -> (missing: Option<usize>)
        requires
            old(self).well_formed(),
            whole_frames(old(output)@, old(self).reader@),
        ensures
            final(self).well_formed(),
            final(self).reader@.channels() == old(self).reader@.channels(),
            final(output)@.len() == old(output)@.len(),
            allowed(*old(self), start, presentation_zone_us, missing is Some),
            missing matches Some(count) ==> followed_found(
                *callback.of(),
                *plans,
                *old(self),
                *final(self),
                measured,
                final(output)@,
                count,
            ),
            missing is None ==> *final(self) == *old(self) && final(output)@ == Seq::new(
                old(output)@.len(),
                |i: int| 0i32,
            ),
    {
        if self.reject_closed(output) {
            return None;
        }
        let decision = start.decide(presentation_zone_us);
        assert(call_ensures(S::decide, (start, presentation_zone_us), decision));
        let audible: bool = match decision {
            Ok(outcome) => is_heard(outcome),
            Err(_) => false,
        };
        if !audible {
            fill_silent(output);
            return None;
        }
        let wanted = self.published_schedule(callback, plans);
        Some(self.render_active(callback, output, measured, wanted))
    }

    /// Render under a plan whose model is checked against the present time.
    pub fn render_validated_plan(
        &mut self,
        output: &mut [i32],
        measured: bool,
        endpoint_now: i64,
        plans: &ValidatedPlanMailbox,
        reader: &mut ValidatedPlanReader,
    ) -> (missing: Option<usize>)
        requires
            old(self).well_formed(),
            whole_frames(old(output)@, old(self).reader@),
        ensures
            final(self).well_formed(),
            final(self).reader@.channels() == old(self).reader@.channels(),
            final(output)@.len() == old(output)@.len(),
            admits(*old(self).gate, missing is Some),
            missing is None ==> *final(self) == *old(self) && *final(reader) == *old(reader)
                && final(output)@ == old(output)@,
            missing matches Some(count) ==> {
                ||| silenced(*old(self), *final(self), final(output)@) && count == output_frames(
                    *old(self),
                    final(output)@,
                )
                ||| old(self).finds_closed(false) && followed_checked(
                    *old(self).gate,
                    *plans,
                    *old(self),
                    *final(self),
                    old(reader).memory(),
                    final(reader).memory(),
                    measured,
                    endpoint_now,
                    final(output)@,
                    count,
                    None,
                )
            },
    {
        let gate = Arc::clone(&self.gate);
        let missing = match gate.begin_callback() {
            Some(callback) => {
                if self.reject_closed(output) {
                    Some(self.reader.frames_in(output))
                } else {
                    Some(
                        self.render_validated_active(
                            &callback,
                            output,
                            measured,
                            endpoint_now,
                            plans,
                            reader,
                        ),
                    )
                }
            },
            None => None,
        };
        missing
    }

    /// Render within a callback, under a plan whose model is checked.
    pub fn render_validated_active(
        &mut self,
        callback: &CallbackGuard<'_>,
        output: &mut [i32],
        measured: bool,
        endpoint_now: i64,
        plans: &ValidatedPlanMailbox,
        reader: &mut ValidatedPlanReader,
    ) -> (missing: usize)
        requires
            old(self).well_formed(),
            whole_frames(old(output)@, old(self).reader@),
        ensures
            final(self).well_formed(),
            final(self).reader@.channels() == old(self).reader@.channels(),
            final(output)@.len() == old(output)@.len(),
            followed_checked(
                *callback.of(),
                *plans,
                *old(self),
                *final(self),
                old(reader).memory(),
                final(reader).memory(),
                measured,
                endpoint_now,
                final(output)@,
                missing,
                None,
            ),
            final(self).feedback_serial == old(self).feedback_serial,
            final(self).owner == old(self).owner,
    {
        let view = callback.view();
        let timeline: u64 = self.reader.timeline_under(view);
        let same: bool = timeline == self.reader.present_timeline();
        let actual: CorrectionSchedule = self.reader.schedule();
        let found = reader.read(plans, timeline, endpoint_now, actual);
        let wanted = plan_to_follow(found, same, actual);
        assert(wanted == plan_under(self.reader@, view, found));
        assert(callback.of().shows(view));
        self.render_active(callback, output, measured, wanted)
    }

    /// The number of the next report. It stays at the last one that there is.
    fn next_serial(&mut self)
        requires
            old(self).well_formed(),
        ensures
            final(self).well_formed(),
            *final(self) == (TapeDevice {
                feedback_serial: next_number(old(self).feedback_serial),
                ..*old(self)
            }),
    {
        self.feedback_serial = self.feedback_serial.saturating_add(1);
    }

    /// Render, and report what was played. `presentation` is when the output is
    /// presented, if that is measured. The answer says what is missing, and
    /// whether the report fit: a full channel costs a report, never output.
    pub fn render_feedback(
        &mut self,
        output: &mut [i32],
        presentation: Option<Instant>,
        plans: &PlanMailbox,
        feedback: &mut Inlet<Observation>,
    ) -> (result: Option<(usize, bool)>)
        requires
            old(self).well_formed(),
            whole_frames(old(output)@, old(self).reader@),
        ensures
            final(self).well_formed(),
            final(self).reader@.channels() == old(self).reader@.channels(),
            final(output)@.len() == old(output)@.len(),
            admits(*old(self).gate, result is Some),
            result is None ==> *final(self) == *old(self) && final(output)@ == old(output)@,
            result matches Some((count, published)) ==> {
                ||| silenced(*old(self), *final(self), final(output)@) && !published && count
                    == output_frames(*old(self), final(output)@)
                ||| old(self).finds_closed(false) && followed_found(
                    *old(self).gate,
                    *plans,
                    *old(self),
                    *final(self),
                    presentation is Some,
                    final(output)@,
                    count,
                ) && final(self).feedback_serial == next_number(old(self).feedback_serial)
                    && (final(self).feedback_origin is Some && old(feedback).room() > 0
                    ==> published)
            },
            !(result matches Some((_, true))) ==> final(feedback).sent() == old(feedback).sent(),
            final(feedback).stream() == old(feedback).stream(),
            result matches Some((_, true)) ==> final(feedback).sent() == old(feedback).sent() + 1
                && {
                let report = old(feedback).stream()[old(feedback).sent() as int];
                &&& Some(report.source_cursor_us) == final(self).feedback_origin
                &&& report.serial == final(self).feedback_serial
                &&& report.timeline == final(self).reader@.timeline
                &&& report.actual_schedule == final(self).reader@.schedule
                &&& report.presentation == presentation
            },
    {
        let gate = Arc::clone(&self.gate);
        let result = match gate.begin_callback() {
            Some(callback) => {
                if self.reject_closed(output) {
                    Some((self.reader.frames_in(output), false))
                } else {
                    self.next_serial();
                    let ghost numbered = *self;
                    let wanted = self.published_schedule(&callback, plans);
                    let missing: usize = self.render_active(
                        &callback,
                        output,
                        presentation.is_some(),
                        wanted,
                    );
                    proof {
                        lemma_numbered(
                            *callback.of(),
                            *plans,
                            *old(self),
                            numbered,
                            *self,
                            presentation is Some,
                            output@,
                            missing,
                        );
                    }
                    let published: bool = match self.feedback_origin {
                        Some(source_cursor_us) => feedback.push(
                            self.report(true, source_cursor_us, presentation),
                        ).is_ok(),
                        None => false,
                    };
                    Some((missing, published))
                }
            },
            None => None,
        };
        result
    }

    /// What this callback observed.
    fn report(
        &self,
        settled_seen: bool,
        source_cursor_us: i64,
        presentation: Option<Instant>,
    ) -> (report: Observation)
        ensures
            report == (Observation {
                settled_seen,
                timeline: self.reader@.timeline,
                serial: self.feedback_serial,
                source_cursor_us,
                presentation,
                actual_schedule: self.reader@.schedule,
            }),
    {
        Observation {
            settled_seen,
            timeline: self.reader.present_timeline(),
            serial: self.feedback_serial,
            source_cursor_us,
            presentation,
            actual_schedule: self.reader.schedule(),
        }
    }

    /// Render under a checked plan, and report. A reset that the plan's reader has
    /// made goes with every report until it is acknowledged. A presentation that
    /// lies before the capture is no measurement.
    pub fn render_validated_feedback(
        &mut self,
        output: &mut [i32],
        captured_at: Instant,
        presentation: Option<Instant>,
        endpoint_now: i64,
        plans: &ValidatedPlanMailbox,
        reader: &mut ValidatedPlanReader,
        feedback: &mut Inlet<ValidatedObservation>,
    ) -> (result: Option<(usize, bool)>)
        requires
            old(self).well_formed(),
            whole_frames(old(output)@, old(self).reader@),
        ensures
            final(self).well_formed(),
            final(self).reader@.channels() == old(self).reader@.channels(),
            final(output)@.len() == old(output)@.len(),
            admits(*old(self).gate, result is Some),
            result is None ==> *final(self) == *old(self) && final(output)@ == old(output)@,
            result matches Some((count, published)) ==> {
                ||| silenced(*old(self), *final(self), final(output)@) && !published && count
                    == output_frames(*old(self), final(output)@)
                ||| old(self).finds_closed(false) && followed_checked(
                    *old(self).gate,
                    *plans,
                    *old(self),
                    *final(self),
                    old(reader).memory(),
                    final(reader).memory(),
                    latency_of(captured_at, presentation) is Some,
                    endpoint_now,
                    final(output)@,
                    count,
                    latency_of(captured_at, presentation),
                ) && final(self).feedback_serial == next_number(old(self).feedback_serial)
                    && (final(self).feedback_origin is Some && old(feedback).room() > 0
                    ==> published)
            },
            !(result matches Some((_, true))) ==> final(feedback).sent() == old(feedback).sent(),
            final(feedback).stream() == old(feedback).stream(),
            result matches Some((_, true)) ==> final(feedback).sent() == old(feedback).sent() + 1
                && {
                let report = old(feedback).stream()[old(feedback).sent() as int];
                &&& Some(report.input.source_cursor_us) == final(self).feedback_origin
                &&& report.input.serial == final(self).feedback_serial
                &&& report.input.timeline == final(self).reader@.timeline
                &&& report.input.actual_schedule == final(self).reader@.schedule
                &&& report.input.presentation == if latency_of(captured_at, presentation) is Some {
                    presentation
                } else {
                    None
                }
                &&& report.reset_epoch == final(reader).memory().reset_epoch
                &&& report.input.settled_seen == final(reader).memory().settled_seen
                &&& report.latency_floor_ns == final(self).latency_floor_ns
            },
    {
        let latency_ns: Option<u64> = measured_from(captured_at, presentation);
        let gate = Arc::clone(&self.gate);
        let result = match gate.begin_callback() {
            Some(callback) => {
                if self.reject_closed(output) {
                    Some((self.reader.frames_in(output), false))
                } else {
                    self.next_serial();
                    let ghost numbered = *self;
                    let missing: usize = self.render_validated_active(
                        &callback,
                        output,
                        latency_ns.is_some(),
                        endpoint_now,
                        plans,
                        reader,
                    );
                    let ghost mid = *self;
                    match latency_ns {
                        Some(latency) => {
                            self.latency_floor_ns = lowered(self.latency_floor_ns, latency);
                        },
                        None => {},
                    }
                    proof {
                        lemma_measured(
                            *callback.of(),
                            *plans,
                            numbered,
                            mid,
                            *self,
                            old(reader).memory(),
                            reader.memory(),
                            latency_ns is Some,
                            endpoint_now,
                            output@,
                            missing,
                            latency_ns,
                        );
                    }
                    let presented: Option<Instant> = if latency_ns.is_some() {
                        presentation
                    } else {
                        None
                    };
                    let published: bool = match self.feedback_origin {
                        Some(source_cursor_us) => feedback.push(
                            ValidatedObservation {
                                latency_floor_ns: self.latency_floor_ns,
                                input: self.report(
                                    reader.settled_seen(),
                                    source_cursor_us,
                                    presented,
                                ),
                                reset_epoch: reader.reset_epoch(),
                            },
                        ).is_ok(),
                        None => false,
                    };
                    Some((missing, published))
                }
            },
            None => None,
        };
        result
    }
}

} // verus!
