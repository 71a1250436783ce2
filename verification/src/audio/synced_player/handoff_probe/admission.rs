//! A ledger of the source: what is handed in, what the device has played, and
//! what the owner is told of both.
use super::timeline::checkpoint::{
    found_of as found_by, CheckpointStep, Found, PublishedCheckpoint, Snapshot,
};
use super::timeline::{forks, phase_read, Phase, Preparation};
use crate::audio::sync_correction::{steady, CadenceCounters};
use crate::audio::synced_player::ingress::control::{committed_says, Notice};
use crate::audio::synced_player::ingress::{ControlGate, GateView, Observation};
use crate::audio::synced_player::preparation::{
    holds, lemma_consumed_follows, lemma_follows_well_formed, reconciled, source_after,
};
use crate::audio::synced_player::queue::{
    lemma_pushed_length, lemma_same_order, next_frame, QueuedAudioBuffer, Source,
};
use crate::audio::synced_player::shared::got_u64;
use crate::audio::synced_player::source::{
    admission_of, admission_step, queued, settled, Admission, AdmissionStep, OwnerAnswer, Pace,
};
use crate::audio::owner::enqueue_answers;
use crate::audio::{
    AudioBuffer, EnqueueOutcome, PlayerScope, RendererOperationOutcome, RendererOwner,
    RendererQueueLimits,
};
use std::sync::atomic::{AtomicU64, Ordering};
use std::sync::Arc;
use vstd::prelude::*;

verus! {

/// The canonical source of one scope, with its accounts.
pub struct SourceLedger {
    pub source: Preparation,
    pub next_source_id: u64,
    pub publication: Option<Arc<PublishedCheckpoint>>,
    pub owner: RendererOwner,
    pub scope: PlayerScope,
    pub progress: Arc<AtomicU64>,
    pub settled: u64,
    pub limits: RendererQueueLimits,
}

/// What the device's playing makes of a source: it is moved to an actual position
/// that belongs to it, or played on by so many frames.
pub open spec fn played_on(before: Source, after: Source, channels: int, rate: int) -> bool {
    ||| settled(before, after)
    ||| exists|frames: int|
        frames >= 0 && after == #[trigger] source_after(before, frames, channels, rate)
}

/// What a ledger makes of a count of frames consumed: it plays its source on by those
/// that are new, and tells the owner where there are any.
pub open spec fn caught_up(
    before: SourceLedger,
    after: SourceLedger,
    actual: u64,
    told: bool,
    done: bool,
) -> bool {
    match before.owed(actual) {
        Some(frames) => {
            &&& after.settled == actual
            &&& after.source.cursor.source() == before.source_played(frames as int)
            &&& done == (frames == 0 || after.countable() && told)
        },
        None => !done && after.settled == before.settled,
    }
}

/// The counts that are told of a ledger: the frames that are new, and what is queued.
pub open spec fn told_of(ledger: SourceLedger, frames: usize) -> (usize, usize, usize) {
    let counts = queued(
        ledger.source.cursor.source(),
        ledger.source.cursor.pending_frames,
        ledger.source.channels as int,
    );
    (frames, counts.0 as usize, counts.1 as usize)
}

/// How a ledger takes over what the device has played, from what it found, and whether that
/// succeeded. Where it follows no publication, it goes by count. Otherwise it moves to a
/// published position, if that belongs to its source and can be counted, with the phase of
/// the output there; what was consumed up to it is settled once the owner is told. Where no
/// position counts, nothing may have been consumed.
pub open spec fn paced(
    before: SourceLedger,
    after: SourceLedger,
    pace: Pace,
    phase: Phase,
    ok: bool,
) -> bool {
    let source = before.source.cursor.source();
    let kept = after.source.phase() == before.source.phase();
    let same = kept && after.source.cursor.source() == source && after.settled == before.settled;
    if !pace.observed {
        same && !ok
    } else {
        match before.publication {
            None => kept && caught_up(before, after, pace.consumed, pace.told, ok),
            Some(_) => if !pace.counted {
                same && ok == (pace.consumed == before.settled && pace.stood)
            } else {
                match pace.read {
                    Some((position, frames)) => if before.settled <= frames && frames
                        - before.settled <= usize::MAX && before.countable() && holds(
                        source,
                        position,
                    ) {
                        &&& after.source.cursor.source() == reconciled(source, position)
                        &&& after.source.phase() == phase
                        &&& ok == (after.countable() && pace.told)
                        &&& after.settled == if ok {
                            frames
                        } else {
                            before.settled
                        }
                    } else {
                        same && !ok
                    },
                    None => same && !ok,
                }
            },
        }
    }
}

/// The phase of the reading that was found, if there is one.
pub open spec fn phase_found(ledger: SourceLedger, actual: Option<&Snapshot<'_>>) -> Phase {
    match actual {
        Some(reading) => phase_read(*reading),
        None => ledger.source.phase(),
    }
}

/// The new frames that a ledger comes to tell the owner of, once it has taken over what
/// the device has played and can count what is left.
pub open spec fn comes_to_tell(before: SourceLedger, after: SourceLedger, pace: Pace) -> Option<
    usize,
> {
    if !pace.observed || !after.countable() {
        None
    } else {
        match before.publication {
            None => match before.owed(pace.consumed) {
                Some(frames) => if frames > 0 {
                    Some(frames)
                } else {
                    None
                },
                None => None,
            },
            Some(_) => match pace.read {
                Some((position, frames)) => if pace.counted && before.settled <= frames && frames
                    - before.settled <= usize::MAX && before.countable() && holds(
                    before.source.cursor.source(),
                    position,
                ) {
                    Some((frames - before.settled) as usize)
                } else {
                    None
                },
                None => None,
            },
        }
    }
}

/// The owner was told of frames that were played and of what is queued, unless the scope
/// was found closed.
pub open spec fn accounted(
    owner: RendererOwner,
    scope: PlayerScope,
    counts: (usize, usize, usize),
    told: bool,
) -> bool {
    &&& owner.is_checked(scope, !told)
    &&& told ==> exists|outcome: RendererOperationOutcome| #[trigger]
        owner.progresses(scope, counts.0, None, counts.1, counts.2, outcome)
}

/// What a ledger found of the device is what the shared memory gave: the control gate was
/// observed, and its publication read under that observation, or the frames consumed.
pub open spec fn pace_given(
    gate: ControlGate,
    ledger: SourceLedger,
    pace: Pace,
    read: Option<Found>,
    seen: Option<GateView>,
) -> bool {
    &&& gate.observes(seen)
    &&& pace.observed == seen is Some
    &&& pace.read == match read {
        Some(found) => Some((found.position, found.source_frames)),
        None => None,
    }
    &&& seen matches Some(view) ==> match ledger.publication {
        Some(publication) => {
            &&& publication.reads_valid(pace.counted)
            &&& if pace.counted {
                publication.is_read(gate, view, *ledger.progress, read)
            } else {
                got_u64(*ledger.progress, pace.consumed) && gate.validates(view, pace.stood)
            }
        },
        None => got_u64(*ledger.progress, pace.consumed),
    }
}

/// The phase of what was read, if anything was.
pub open spec fn phase_given(ledger: SourceLedger, read: Option<Found>) -> Phase {
    match read {
        Some(found) => Phase {
            output_frames: found.output_frames,
            last: found.last,
            schedule: found.cadence.schedule,
            counters: CadenceCounters {
                insert: found.cadence.insert_counter,
                drop: found.cadence.drop_counter,
            },
        },
        None => ledger.source.phase(),
    }
}

/// How a ledger keeps pace from what the shared memory gave. Where it comes to that, the
/// owner is told.
pub open spec fn keeps_pace_from(
    gate: ControlGate,
    before: SourceLedger,
    after: SourceLedger,
    pace: Pace,
    read: Option<Found>,
    seen: Option<GateView>,
    ok: bool,
) -> bool {
    &&& pace_given(gate, before, pace, read, seen)
    &&& paced(before, after, pace, phase_given(before, read), ok)
    &&& comes_to_tell(before, after, pace) matches Some(frames) ==> accounted(
        before.owner,
        before.scope,
        told_of(after, frames),
        pace.told,
    )
}

/// A ledger that was to take over what the device has played, under what was seen of the
/// control gate, and whether it could.
pub open spec fn keeps_pace(
    gate: ControlGate,
    before: SourceLedger,
    after: SourceLedger,
    seen: Option<GateView>,
    ok: bool,
) -> bool {
    exists|pace: Pace, read: Option<Found>| #[trigger]
        keeps_pace_from(gate, before, after, pace, read, seen, ok)
}

/// A ledger that has taken over what the device has played, under what was seen.
pub open spec fn paced_under(
    gate: ControlGate,
    before: SourceLedger,
    after: SourceLedger,
    seen: GateView,
) -> bool {
    keeps_pace(gate, before, after, Some(seen), true)
}

/// A ledger that has taken over what the device has played, or has tried to.
pub open spec fn kept_pace(gate: ControlGate, before: SourceLedger, after: SourceLedger) -> bool {
    exists|seen: Option<GateView>, ok: bool| #[trigger]
        keeps_pace(gate, before, after, seen, ok)
}

/// A ledger that could not keep pace, or that the control gate has moved on from.
pub open spec fn not_validated(
    gate: ControlGate,
    before: SourceLedger,
    after: SourceLedger,
) -> bool {
    ||| exists|seen: Option<GateView>| #[trigger] keeps_pace(gate, before, after, seen, false)
    ||| exists|seen: GateView| #[trigger]
        paced_under(gate, before, after, seen) && gate.is_confirmed(seen, false)
}

/// A ledger that has caught up with the count of frames consumed that was read.
pub open spec fn counted_up(before: SourceLedger, after: SourceLedger, done: bool) -> bool {
    exists|actual: u64, told: bool|
        {
            &&& #[trigger] caught_up(before, after, actual, told, done)
            &&& got_u64(*before.progress, actual)
            &&& before.owed(actual) is Some && before.owed(actual)->0 > 0 && after.countable()
                ==> accounted(
                before.owner,
                before.scope,
                told_of(after, before.owed(actual)->0),
                told,
            )
        }
}

/// A ledger that has kept pace and then took a version of the control gate for what it is
/// about to do.
pub open spec fn committed_from(
    gate: ControlGate,
    before: SourceLedger,
    between: SourceLedger,
    notice: Notice,
) -> bool {
    exists|seen: GateView, v: GateView| #[trigger]
        paced_under(gate, before, between, seen) && #[trigger] gate.commits(
            seen,
            notice,
            Ok::<GateView, GateView>(v),
        )
}

/// A ledger that could not keep pace, or that the control gate gave no version.
pub open spec fn not_committed(
    gate: ControlGate,
    before: SourceLedger,
    after: SourceLedger,
    notice: Notice,
) -> bool {
    ||| exists|seen: Option<GateView>| #[trigger] keeps_pace(gate, before, after, seen, false)
    ||| exists|seen: GateView| #[trigger]
        paced_under(gate, before, after, seen) && (committed_says(seen.says(), notice) is None
            || exists|v: GateView| #[trigger]
            gate.commits(seen, notice, Err::<GateView, GateView>(v)))
}

/// A buffer that is accepted can be pushed once the ledger has kept pace, and is queued
/// under the next identity.
pub open spec fn taken_in(between: SourceLedger, after: SourceLedger, buffer: AudioBuffer) -> bool {
    &&& between.can_push(buffer)
    &&& 0 < buffer.frame_count() <= between.owner.limits().chunk()
    &&& queued_into(between, after, buffer)
}

/// A ledger whose timeline was moved to a time, and nothing else.
pub open spec fn reanchored(between: SourceLedger, after: SourceLedger, cursor_us: i64) -> bool {
    &&& after.source.cursor.source() == (Source {
        cursor_us,
        cursor_remainder: 0,
        ..between.source.cursor.source()
    })
    &&& after.source.cursor.same_but_source(between.source.cursor)
    &&& after == (SourceLedger {
        source: Preparation { cursor: after.source.cursor, ..between.source },
        ..between
    })
}

/// A ledger whose source was given up: output begins anew, and everything that is not
/// source or output stays, what was consumed and the identities included.
pub open spec fn cleared(between: SourceLedger, after: SourceLedger) -> bool {
    &&& after.source.cursor.source().order().len() == 0
    &&& after.source.cursor.emptied(between.source.cursor)
    &&& after.source.phase() == (Phase {
        output_frames: 0,
        last: Seq::new(between.source.channels as nat, |i: int| 0i32),
        schedule: steady(),
        counters: CadenceCounters { insert: 0, drop: 0 },
    })
    &&& after.source.channels == between.source.channels
    &&& after.source.rate == between.source.rate
    &&& after.source.window_frames == between.source.window_frames
    &&& after.source.checkpoint == between.source.checkpoint
    &&& after == (SourceLedger { source: after.source, ..between })
}

/// How a ledger gives up its source: once it has kept pace and the control gate took a
/// version for it, the owner is asked, and where that applies everything is given up and the
/// publication no longer counts.
pub open spec fn clear_tried(
    gate: ControlGate,
    before: SourceLedger,
    after: SourceLedger,
    result: Result<RendererOperationOutcome, ()>,
) -> bool {
    if result == Ok::<RendererOperationOutcome, ()>(RendererOperationOutcome::Applied) {
        &&& before.owner.clears(before.scope, result)
        &&& before.publication matches Some(publication) ==> publication.makes(
            CheckpointStep::InvalidateAfterClear,
        )
        &&& exists|between: SourceLedger| #[trigger]
            committed_from(gate, before, between, Notice::Cleared) && between.same_but_settled(
                before,
            ) && cleared(between, after)
    } else {
        &&& after.same_but_settled(before)
        &&& before.plays_on(after.source.cursor.source())
        &&& {
            ||| result is Err && not_committed(gate, before, after, Notice::Cleared)
            ||| committed_from(gate, before, after, Notice::Cleared) && before.owner.clears(
                before.scope,
                result,
            )
        }
    }
}

/// A buffer that is queued under the next identity, and nothing else.
pub open spec fn queued_into(
    between: SourceLedger,
    after: SourceLedger,
    buffer: AudioBuffer,
) -> bool {
    &&& after.source.cursor.source() == between.source.cursor.source_with(
        QueuedAudioBuffer { source_id: between.next_source_id, buffer }@,
    )
    &&& after == (SourceLedger {
        source: Preparation { cursor: after.source.cursor, ..between.source },
        next_source_id: (between.next_source_id + 1) as u64,
        ..between
    })
}

/// A ledger that could not keep pace, or cannot count what is left.
pub open spec fn not_caught_up(
    gate: ControlGate,
    before: SourceLedger,
    after: SourceLedger,
) -> bool {
    ||| exists|seen: Option<GateView>| #[trigger] keeps_pace(gate, before, after, seen, false)
    ||| !after.countable() && exists|seen: GateView| #[trigger]
        paced_under(gate, before, after, seen)
}

/// What was found of a buffer, told of the ledger that has taken over what the device
/// has played.
pub open spec fn found_of(
    found: Admission,
    gate: ControlGate,
    before: SourceLedger,
    between: SourceLedger,
    buffer: AudioBuffer,
) -> bool {
    &&& between.same_but_settled(before)
    &&& before.plays_on(between.source.cursor.source())
    &&& before.owner.is_checked(before.scope, found.closed)
    &&& if found.closed {
        between == before
    } else {
        kept_pace(gate, before, between)
    }
    &&& found.caught_up ==> {
        &&& exists|seen: GateView| #[trigger]
            paced_under(gate, before, between, seen) && found.stands_by(gate, seen)
        &&& between.countable()
        &&& found.fits == between.fits_now(buffer)
        &&& found.appends == between.source.cursor.extends(buffer)
    }
    &&& found.caught_up && found.stood is Some ==> found.pushable == between.can_push(buffer)
    &&& !found.closed && !found.caught_up ==> not_caught_up(gate, before, between)
    &&& found.closed && found.answer == Some(OwnerAnswer::Admits) ==> before.owner.admits(
        before.scope,
        buffer.frame_count() as usize,
    )
    &&& found.answer matches Some(OwnerAnswer::Refuses { outcome })
        ==> before.owner.answers_enqueue(
        before.scope,
        buffer.frame_count() as usize,
        outcome,
    )
}

/// An answer that is not stale: the scope was not found closed, and what the device has
/// played is taken over; or it was found closed, and nothing was touched.
pub open spec fn admission_stood(
    gate: ControlGate,
    before: SourceLedger,
    after: SourceLedger,
) -> bool {
    after == before || exists|seen: GateView| #[trigger] paced_under(gate, before, after, seen)
}

/// What becomes of a buffer that is handed in while a device plays: what was found of it
/// decides, and the ledger holds it where it is accepted. Everyone else leaves the ledger
/// as the device has played it.
pub open spec fn admitted(
    gate: ControlGate,
    before: SourceLedger,
    after: SourceLedger,
    buffer: AudioBuffer,
    result: Result<EnqueueOutcome, AudioBuffer>,
) -> bool {
    exists|found: Admission, between: SourceLedger| #[trigger]
        found_of(found, gate, before, between, buffer) && found.concludes(buffer, result)
            && if found.next_step() is Push {
            &&& taken_in(between, after, buffer)
            &&& result matches Ok(EnqueueOutcome::Accepted { queued_frames, queued_buffers })
                && before.owner.takes_in(
                before.scope,
                buffer.frame_count() as usize,
                queued_frames,
                queued_buffers,
            )
        } else {
            after == between
        }
}

/// What becomes of a buffer that is handed in once a ledger has caught up: it is turned
/// away without an answer where the ledger has not, or where it cannot be pushed. The
/// owner answers every other one, and one that it accepts is queued.
pub open spec fn handed_in(
    between: SourceLedger,
    after: SourceLedger,
    done: bool,
    buffer: AudioBuffer,
    outcome: Option<EnqueueOutcome>,
) -> bool {
    let source = between.source.cursor.source();
    &&& outcome is Some <==> done && between.can_push(buffer)
    &&& match outcome {
        Some(EnqueueOutcome::Accepted { queued_frames, queued_buffers }) => {
            &&& 0 < buffer.frame_count() <= between.owner.limits().chunk()
            &&& queued_into(between, after, buffer)
            &&& between.owner.takes_in(
                between.scope,
                buffer.frame_count() as usize,
                queued_frames,
                queued_buffers,
            )
        },
        Some(refused) => {
            &&& after.source.cursor.source() == source
            &&& enqueue_answers(
                between.owner.limits(),
                between.scope,
                buffer.frame_count() as usize,
                refused,
            )
            &&& between.owner.answers_enqueue(
                between.scope,
                buffer.frame_count() as usize,
                refused,
            )
        },
        None => after.source.cursor.source() == source,
    }
}

/// What a device position hands to a preparation.
#[derive(Clone, Copy, Debug, PartialEq, Eq, Structural)]
pub struct PreparationKey {
    pub view: GateView,
    pub next_source_id: u64,
    pub settled: u64,
}

impl SourceLedger {
    pub open spec fn well_formed(&self) -> bool {
        &&& self.source.well_formed()
        &&& self.source.cursor.next_source_id <= self.next_source_id
        &&& self.publication matches Some(publication) ==> publication.channels()
            == self.source.channels
    }

    /// What the device's playing can make of this ledger's source.
    pub open spec fn plays_on(&self, after: Source) -> bool {
        played_on(
            self.source.cursor.source(),
            after,
            self.source.channels as int,
            self.source.rate as int,
        )
    }

    /// This ledger's source, played on by so many frames.
    pub open spec fn source_played(&self, frames: int) -> Source {
        source_after(
            self.source.cursor.source(),
            frames,
            self.source.channels as int,
            self.source.rate as int,
        )
    }

    /// Whether this ledger's source has so many frames.
    pub open spec fn has_frames(&self, frames: int) -> bool {
        forall|i: int|
            0 <= i < frames ==> next_frame(
                #[trigger] self.source_played(i),
                self.source.channels as int,
                self.source.rate as int,
            ) is Some
    }

    /// The frames to be taken over where so many were consumed in all, if they belong
    /// to this source.
    pub open spec fn owed(&self, actual: u64) -> Option<usize> {
        if self.settled <= actual && actual - self.settled <= usize::MAX && self.has_frames(
            actual - self.settled,
        ) {
            Some((actual - self.settled) as usize)
        } else {
            None
        }
    }

    /// Everything but the playing state and what is settled stays.
    pub open spec fn same_but_settled(&self, before: SourceLedger) -> bool {
        &&& self.next_source_id == before.next_source_id
        &&& self.publication == before.publication
        &&& self.owner == before.owner
        &&& self.scope == before.scope
        &&& self.limits == before.limits
        &&& self.progress == before.progress
        &&& self.source.channels == before.source.channels
        &&& self.source.rate == before.source.rate
        &&& self.source.window_frames == before.source.window_frames
        &&& self.source.checkpoint == before.source.checkpoint
        &&& self.source.cursor.same_but_source(before.source.cursor)
    }

    /// A ledger for a mono source of a thousand frames a second.
    pub fn new(progress: Arc<AtomicU64>) -> (ledger: Option<SourceLedger>)
        ensures
            ledger is Some,
            ledger matches Some(l) ==> l.well_formed() && l.next_source_id == 1 && l.settled == 0
                && l.owner.limits() == l.limits && l.publication is None && l.source.channels == 1
                && l.source.rate == 1_000
                && l.source.cursor.source().order().len() == 0 && l.limits.frames() == 32
                && l.limits.buffers() == 8 && l.limits.chunk() == 16,
    {
        let limits = RendererQueueLimits::new(32, 8, 16)?;
        let (owner, scope): (RendererOwner, PlayerScope) = RendererOwner::opened(limits);
        Some(
            SourceLedger {
                source: Preparation::empty(1, 1_000, 16),
                next_source_id: 1,
                publication: None,
                owner,
                scope,
                progress,
                settled: 0,
                limits,
            },
        )
    }

    /// A ledger that follows what the device publishes.
    pub fn with_checkpoint(progress: Arc<AtomicU64>, publication: Arc<PublishedCheckpoint>) -> (ledger:
        Option<SourceLedger>)
        requires
            publication.channels() == 1,
        ensures
            ledger is Some,
            ledger matches Some(l) ==> l.well_formed() && l.next_source_id == 1 && l.settled == 0
                && l.owner.limits() == l.limits && l.publication == Some(publication)
                && l.source.channels == 1 && l.source.rate
                == 1_000 && l.source.cursor.source().order().len() == 0,
    {
        let mut ledger = SourceLedger::new(progress)?;
        ledger.source.attach_checkpoint(Arc::clone(&publication));
        ledger.publication = Some(publication);
        Some(ledger)
    }

    /// Play the view on by so many frames. `false` where it has not got as many;
    /// it is then at its end.
    fn play_on(&mut self, frames: u64) -> (all: bool)
        requires
            old(self).well_formed(),
        ensures
            final(self).well_formed(),
            final(self).same_but_settled(*old(self)),
            final(self).settled == old(self).settled,
            final(self).source.phase() == old(self).source.phase(),
            all == old(self).has_frames(frames as int),
            all ==> final(self).source.cursor.source() == old(self).source_played(frames as int),
            old(self).plays_on(final(self).source.cursor.source()),
    {
        let ghost s = self.source.cursor.source();
        let ghost c = self.source.channels as int;
        let ghost rate = self.source.rate as int;
        let mut i: u64 = 0;
        while i < frames
            invariant
                i <= frames,
                s == old(self).source.cursor.source(),
                c == self.source.channels,
                rate == self.source.rate,
                c == old(self).source.channels,
                rate == old(self).source.rate,
                self.well_formed(),
                self.same_but_settled(*old(self)),
                self.settled == old(self).settled,
                self.source.phase() == old(self).source.phase(),
                self.source.cursor.source() == source_after(s, i as int, c, rate),
                old(self).has_frames(i as int),
            decreases frames - i,
        {
            let ghost before = self.source.cursor;
            let channels: usize = self.source.channels;
            let sample_rate: u32 = self.source.rate;
            let played: bool = self.source.cursor.consume_next_frame(channels, sample_rate, None);
            proof {
                let count = lemma_consumed_follows(before.source(), c, rate);
                lemma_follows_well_formed(before, self.source.cursor, count);
            }
            assert(old(self).source_played(i as int) == before.source());
            i += 1;
            assert(self.source.cursor.source() == source_after(s, i as int, c, rate));
            if !played {
                return false;
            }
        }
        true
    }

    /// Frames consumed since the last settling, if they can be counted.
    pub fn unsettled(&self, actual: u64) -> (frames: Option<usize>)
        ensures
            frames == if self.settled <= actual && actual - self.settled <= usize::MAX {
                Some((actual - self.settled) as usize)
            } else {
                None
            },
    {
        if self.settled > actual {
            return None;
        }
        let frames: u64 = actual - self.settled;
        if frames <= usize::MAX as u64 {
            Some(frames as usize)
        } else {
            None
        }
    }

    /// Whether a buffer fits beside what is queued.
    pub open spec fn fits_now(&self, buffer: AudioBuffer) -> bool {
        let counts = queued(
            self.source.cursor.source(),
            self.source.cursor.pending_frames,
            self.source.channels as int,
        );
        self.limits.fits(counts.0, counts.1, buffer.frame_count() as int)
    }

    /// Whether what is queued can be counted.
    pub open spec fn countable(&self) -> bool {
        let counts = queued(
            self.source.cursor.source(),
            self.source.cursor.pending_frames,
            self.source.channels as int,
        );
        counts.0 <= usize::MAX && counts.1 <= usize::MAX
    }

    /// Tell the owner what was consumed and what is queued. `false` where the scope is
    /// not open: that is the owner's to say.
    fn account(
        owner: &RendererOwner,
        scope: PlayerScope,
        frames: usize,
        queued_frames: usize,
        queued_buffers: usize,
    ) -> (told: bool)
        ensures
            accounted(*owner, scope, (frames, queued_frames, queued_buffers), told),
    {
        let permit = owner.try_callback_permit(scope);
        let told: bool = permit.is_some();
        assert(owner.is_checked(scope, !told));
        match permit {
            Some(permit) => {
                let outcome = permit.record_actual_progress(
                    frames,
                    None,
                    queued_frames,
                    queued_buffers,
                );
                let ghost counts = (frames, queued_frames, queued_buffers);
                assert(owner.progresses(scope, counts.0, None, counts.1, counts.2, outcome));
                assert(accounted(*owner, scope, counts, true));
                true
            },
            None => false,
        }
    }

    /// Take over that so many frames were consumed in all, by playing the view on. The
    /// answer is how many are new. `None` where they do not belong to this view.
    pub fn consume_to(&mut self, actual: u64) -> (delta: Option<usize>)
        requires
            old(self).well_formed(),
        ensures
            final(self).well_formed(),
            final(self).same_but_settled(*old(self)),
            delta == old(self).owed(actual),
            final(self).source.phase() == old(self).source.phase(),
            old(self).plays_on(final(self).source.cursor.source()),
            match delta {
                Some(frames) => final(self).settled == actual && final(self).source.cursor.source()
                    == old(self).source_played(frames as int),
                None => final(self).settled == old(self).settled,
            },
    {
        let delta: usize = match self.unsettled(actual) {
            Some(delta) => delta,
            None => {
                proof {
                    assert(settled(old(self).source.cursor.source(), self.source.cursor.source()));
                }
                return None;
            },
        };
        if !self.play_on(widened(delta)) {
            return None;
        }
        self.settled = actual;
        Some(delta)
    }

    /// Take over that so many frames were consumed in all, and tell the owner where
    /// there are new ones. `false` where they do not belong to this view, or where the
    /// owner could not be told.
    pub fn catch_up<F: FnOnce(usize, usize, usize) -> bool>(
        &mut self,
        actual: u64,
        tell: F,
    ) -> (done: bool)
        requires
            old(self).well_formed(),
            forall|frames: usize, queued_frames: usize, queued_buffers: usize|
                call_requires(tell, (frames, queued_frames, queued_buffers)),
        ensures
            final(self).well_formed(),
            final(self).same_but_settled(*old(self)),
            final(self).source.phase() == old(self).source.phase(),
            old(self).plays_on(final(self).source.cursor.source()),
            exists|told: bool|
                {
                    &&& #[trigger] caught_up(*old(self), *final(self), actual, told, done)
                    &&& old(self).owed(actual) is Some && old(self).owed(actual)->0 > 0
                        && final(self).countable() ==> call_ensures(
                        tell,
                        told_of(*final(self), old(self).owed(actual)->0),
                        told,
                    )
                },
    {
        let ghost first = *self;
        let delta: usize = match self.consume_to(actual) {
            Some(delta) => delta,
            None => {
                assert(caught_up(first, *self, actual, false, false));
                return false;
            },
        };
        if delta == 0 {
            assert(caught_up(first, *self, actual, false, true));
            return true;
        }
        match self.source.cursor.counts(self.source.channels) {
            Some((queued_frames, queued_buffers)) => {
                let told: bool = tell(delta, queued_frames, queued_buffers);
                assert(caught_up(first, *self, actual, told, told));
                told
            },
            None => {
                assert(caught_up(first, *self, actual, false, false));
                false
            },
        }
    }

    /// Take over what the device has consumed, by playing the view on. Only a
    /// ledger without a publication does this: a position says more than a count.
    /// `false` where the count does not belong to this view, or where the owner
    /// cannot be told.
    pub fn reconcile(&mut self) -> (done: bool)
        requires
            old(self).well_formed(),
            old(self).publication is None,
        ensures
            final(self).well_formed(),
            final(self).same_but_settled(*old(self)),
            final(self).source.phase() == old(self).source.phase(),
            old(self).plays_on(final(self).source.cursor.source()),
            counted_up(*old(self), *final(self), done),
    {
        let actual: u64 = self.progress.load(Ordering::Acquire);
        let owner = self.owner.clone();
        let scope = self.scope;
        let tell = |frames: usize, queued_frames: usize, queued_buffers: usize| -> (told: bool)
            ensures
                accounted(owner, scope, (frames, queued_frames, queued_buffers), told),
            { SourceLedger::account(&owner, scope, frames, queued_frames, queued_buffers) };
        let done: bool = self.catch_up(actual, tell);
        assert(counted_up(*old(self), *self, done));
        done
    }

    /// Take over what the device has played, from what was found of it. `tell` tells
    /// the owner the frames that are new, and the frames and buffers that are queued
    /// then. The answer is whether that succeeded. `actual` is the reading whose position
    /// was found.
    pub fn follow<F: FnOnce(usize, usize, usize) -> bool>(
        &mut self,
        found: Pace,
        actual: Option<&Snapshot<'_>>,
        tell: F,
    ) -> (ok: bool)
        requires
            old(self).well_formed(),
            match actual {
                Some(reading) => found.read == Some((reading.position, reading.source_frames))
                    && reading.last@.len() == old(self).source.channels,
                None => found.read is None,
            },
            forall|frames: usize, queued_frames: usize, queued_buffers: usize|
                call_requires(tell, (frames, queued_frames, queued_buffers)),
        ensures
            final(self).well_formed(),
            final(self).same_but_settled(*old(self)),
            old(self).plays_on(final(self).source.cursor.source()),
            exists|told: bool|
                {
                    &&& #[trigger] paced(
                        *old(self),
                        *final(self),
                        found.answered(told),
                        phase_found(*old(self), actual),
                        ok,
                    )
                    &&& comes_to_tell(*old(self), *final(self), found) matches Some(frames)
                        ==> call_ensures(tell, told_of(*final(self), frames), told)
                },
    {
        let ghost first = *self;
        let ghost phase = phase_found(*self, actual);
        proof {
            assert(settled(first.source.cursor.source(), self.source.cursor.source()));
        }
        if !found.observed {
            assert(paced(first, *self, found.answered(false), phase, false));
            return false;
        }
        if self.publication.is_none() {
            let done: bool = self.catch_up(found.consumed, tell);
            let ghost told = choose|told: bool|
                {
                    &&& #[trigger] caught_up(first, *self, found.consumed, told, done)
                    &&& first.owed(found.consumed) is Some && first.owed(found.consumed)->0 > 0
                        && self.countable() ==> call_ensures(
                        tell,
                        told_of(*self, first.owed(found.consumed)->0),
                        told,
                    )
                };
            assert(paced(first, *self, found.answered(told), phase, done));
            return done;
        }
        if !found.counted {
            let ok: bool = found.consumed == self.settled && found.stood;
            assert(paced(first, *self, found.answered(false), phase, ok));
            return ok;
        }
        let actual = match actual {
            Some(actual) => actual,
            None => {
                assert(paced(first, *self, found.answered(false), phase, false));
                return false;
            },
        };
        let delta: usize = match self.unsettled(actual.source_frames) {
            Some(delta) => delta,
            None => {
                assert(paced(first, *self, found.answered(false), phase, false));
                return false;
            },
        };
        if self.source.cursor.counts(self.source.channels).is_none() || !self.source.apply_actual(
            actual,
        ) {
            assert(paced(first, *self, found.answered(false), phase, false));
            return false;
        }
        // No frame more can still mean that sources were retired unplayed.
        match self.source.cursor.counts(self.source.channels) {
            Some((queued_frames, queued_buffers)) => {
                let told: bool = tell(delta, queued_frames, queued_buffers);
                if told {
                    self.settled = actual.source_frames;
                }
                assert(paced(first, *self, found.answered(told), phase, told));
                told
            },
            None => {
                assert(paced(first, *self, found.answered(false), phase, false));
                false
            },
        }
    }

    /// Observe between callbacks, and take over what the device has played. `Err`
    /// asks the caller to try again.
    pub fn try_reconcile<'a>(&mut self, gate: &'a ControlGate) -> (result: Result<
        Observation<'a>,
        (),
    >)
        requires
            old(self).well_formed(),
        ensures
            final(self).well_formed(),
            final(self).same_but_settled(*old(self)),
            old(self).plays_on(final(self).source.cursor.source()),
            match result {
                Ok(o) => {
                    &&& o.of() == gate
                    &&& !o.seen().says().active
                    &&& paced_under(*gate, *old(self), *final(self), o.seen())
                },
                Err(_) => exists|seen: Option<GateView>| #[trigger]
                    keeps_pace(*gate, *old(self), *final(self), seen, false),
            },
    {
        let mut found = Pace::nothing();
        let mut stands: Option<Observation<'a>> = None;
        let mut reading: Option<Snapshot<'a>> = None;
        let ghost mut seen: Option<GateView> = None;
        match gate.observe() {
            Some(view) => {
                found.observed = true;
                proof {
                    seen = Some(view.seen());
                }
                match &self.publication {
                    Some(publication) => {
                        found.counted = publication.is_valid();
                        if found.counted {
                            match publication.read_observed(view, &self.progress) {
                                Some(actual) => {
                                    found.read = Some((actual.position, actual.source_frames));
                                    reading = Some(actual);
                                },
                                None => {},
                            }
                        } else {
                            found.consumed = self.progress.load(Ordering::Acquire);
                            found.stood = gate.validate(&view);
                            stands = Some(view);
                        }
                    },
                    None => {
                        found.consumed = self.progress.load(Ordering::Acquire);
                        stands = Some(view);
                    },
                }
            },
            None => {},
        }
        let owner = self.owner.clone();
        let scope = self.scope;
        let tell = |frames: usize, queued_frames: usize, queued_buffers: usize| -> (told: bool)
            ensures
                accounted(owner, scope, (frames, queued_frames, queued_buffers), told),
            { SourceLedger::account(&owner, scope, frames, queued_frames, queued_buffers) };
        let ghost read = found_by(reading);
        let ok: bool = self.follow(found, reading.as_ref(), tell);
        proof {
            let told = choose|told: bool| #[trigger]
                paced(*old(self), *self, found.answered(told), phase_given(*old(self), read), ok)
                    && (comes_to_tell(*old(self), *self, found) matches Some(frames) ==> accounted(
                    owner,
                    scope,
                    told_of(*self, frames),
                    told,
                ));
            assert(pace_given(*gate, *old(self), found.answered(told), read, seen));
            assert(keeps_pace_from(
                *gate,
                *old(self),
                *self,
                found.answered(told),
                read,
                seen,
                ok,
            ));
            assert(keeps_pace(*gate, *old(self), *self, seen, ok));
        }
        match (reading, stands) {
            (Some(actual), _) if ok => Ok(actual.view),
            (None, Some(view)) if ok => Ok(view),
            _ => {
                assert(!ok);
                Err(())
            },
        }
    }

    /// The version and the identities that a preparation would be made from.
    pub fn preparation_version(&mut self, gate: &ControlGate) -> (result: Result<
        PreparationKey,
        (),
    >)
        requires
            old(self).well_formed(),
        ensures
            final(self).well_formed(),
            final(self).same_but_settled(*old(self)),
            match result {
                Ok(key) => {
                    &&& key.next_source_id == final(self).next_source_id
                    &&& key.settled == final(self).settled
                    &&& !key.view.says().active
                    &&& paced_under(*gate, *old(self), *final(self), key.view)
                },
                Err(_) => exists|seen: Option<GateView>| #[trigger]
                    keeps_pace(*gate, *old(self), *final(self), seen, false),
            },
    {
        match self.try_reconcile(gate) {
            Ok(view) => Ok(
                PreparationKey {
                    view: view.view(),
                    next_source_id: self.next_source_id,
                    settled: self.settled,
                },
            ),
            Err(_) => Err(()),
        }
    }

    /// A preparation from the actual position, if that still stands once it is
    /// made.
    pub fn preparation(&mut self, gate: &ControlGate) -> (result: Result<(GateView, Preparation), ()>)
        requires
            old(self).well_formed(),
        ensures
            final(self).well_formed(),
            final(self).same_but_settled(*old(self)),
            match result {
                Ok(made) => {
                    &&& made.1.well_formed()
                    &&& forks(final(self).source, made.1)
                    &&& !made.0.says().active
                    &&& paced_under(*gate, *old(self), *final(self), made.0)
                    &&& gate.is_confirmed(made.0, true)
                },
                Err(_) => not_validated(*gate, *old(self), *final(self)),
            },
    {
        match self.preparation_snapshot(gate) {
            Ok((key, source)) => Ok((key.view, source)),
            Err(_) => Err(()),
        }
    }

    /// A preparation from the actual position, and what it was made from.
    pub fn preparation_snapshot(&mut self, gate: &ControlGate) -> (result: Result<
        (PreparationKey, Preparation),
        (),
    >)
        requires
            old(self).well_formed(),
        ensures
            final(self).well_formed(),
            final(self).same_but_settled(*old(self)),
            match result {
                Ok(made) => {
                    &&& made.1.well_formed()
                    &&& forks(final(self).source, made.1)
                    &&& !made.0.view.says().active
                    &&& made.0.next_source_id == final(self).next_source_id
                    &&& made.0.settled == final(self).settled
                    &&& paced_under(*gate, *old(self), *final(self), made.0.view)
                    &&& gate.is_confirmed(made.0.view, true)
                },
                Err(_) => not_validated(*gate, *old(self), *final(self)),
            },
    {
        let observation = match self.try_reconcile(gate) {
            Ok(observation) => observation,
            Err(_) => {
                return Err(());
            },
        };
        assert(paced_under(*gate, *old(self), *self, observation.seen()));
        let source = self.source.fork_actual();
        if !gate.confirm(&observation) {
            return Err(());
        }
        Ok(
            (
                PreparationKey {
                    view: observation.view(),
                    next_source_id: self.next_source_id,
                    settled: self.settled,
                },
                source,
            ),
        )
    }

    /// Whether a buffer can be numbered and counted beside what is queued, and is of
    /// the format that is prepared for.
    pub open spec fn can_push(&self, buffer: AudioBuffer) -> bool {
        let counts = queued(
            self.source.cursor.source(),
            self.source.cursor.pending_frames,
            self.source.channels as int,
        );
        &&& self.next_source_id < u64::MAX
        &&& buffer.format.channels == self.source.channels
        &&& buffer.format.sample_rate == self.source.rate
        &&& counts.0 + buffer.frame_count() <= usize::MAX
        &&& counts.1 + 1 <= usize::MAX
    }

    /// Whether a buffer can be pushed.
    fn pushable(&self, buffer: &AudioBuffer) -> (can: bool)
        requires
            self.well_formed(),
        ensures
            can == self.can_push(*buffer),
    {
        let counts: (usize, usize) = match self.source.cursor.counts(self.source.channels) {
            Some(counts) => counts,
            None => {
                return false;
            },
        };
        proof {
            assert(self.source.cursor.source().left() / (self.source.channels as int) >= 0)
                by (nonlinear_arith)
                requires
                    self.source.cursor.source().left() >= 0,
                    self.source.channels > 0,
            ;
        }
        let countable: bool = counts.0.checked_add(buffer.frames()).is_some()
            && counts.1.checked_add(1).is_some();
        countable && buffer.format.channels as usize == self.source.channels
            && buffer.format.sample_rate == self.source.rate && self.next_source_id < u64::MAX
    }

    /// Queue a buffer under an identity that was given, and count.
    fn push_counted(&mut self, id: u64, buffer: AudioBuffer) -> (counts: (usize, usize))
        requires
            old(self).well_formed(),
            id < old(self).next_source_id,
            old(self).source.accepts(id, buffer),
            queued(
                old(self).source.cursor.source(),
                old(self).source.cursor.pending_frames,
                old(self).source.channels as int,
            ).0 + buffer.frame_count() <= usize::MAX,
            queued(
                old(self).source.cursor.source(),
                old(self).source.cursor.pending_frames,
                old(self).source.channels as int,
            ).1 + 1 <= usize::MAX,
        ensures
            final(self).well_formed(),
            final(self).source.cursor.source() == old(self).source.cursor.source_with(
                QueuedAudioBuffer { source_id: id, buffer }@,
            ),
            *final(self) == (SourceLedger {
                source: Preparation { cursor: final(self).source.cursor, ..old(self).source },
                ..*old(self)
            }),
            (counts.0 as int, counts.1 as int) == queued(
                final(self).source.cursor.source(),
                final(self).source.cursor.pending_frames,
                final(self).source.channels as int,
            ),
    {
        let ghost before = self.source.cursor;
        let ghost entry = QueuedAudioBuffer { source_id: id, buffer }@;
        proof {
            assert(before.source().left() / (self.source.channels as int) >= 0)
                by (nonlinear_arith)
                requires
                    before.source().left() >= 0,
                    self.source.channels > 0,
            ;
            lemma_pushed_length(before.source().pending, entry);
        }
        self.source.push(id, buffer);
        match self.source.cursor.counts(self.source.channels) {
            Some(counts) => counts,
            None => {
                assert(false);
                (0, 0)
            },
        }
    }

    /// Hand in a buffer without a device in the way. The owner decides; the identity
    /// is used up either way. `None` where the buffer cannot be counted, or where
    /// what was consumed does not belong to this view.
    pub fn enqueue(&mut self, buffer: AudioBuffer) -> (outcome: Option<EnqueueOutcome>)
        requires
            old(self).well_formed(),
            old(self).publication is None,
        ensures
            final(self).well_formed(),
            exists|between: SourceLedger, done: bool| #[trigger]
                counted_up(*old(self), between, done) && between.same_but_settled(*old(self))
                    && handed_in(
                    between,
                    *final(self),
                    done,
                    buffer,
                    outcome,
                ),
            outcome matches Some(EnqueueOutcome::Accepted { queued_frames, queued_buffers }) ==> (
            queued_frames as int, queued_buffers as int) == queued(
                final(self).source.cursor.source(),
                final(self).source.cursor.pending_frames,
                final(self).source.channels as int,
            ),
            final(self).next_source_id == old(self).next_source_id + if outcome is Some {
                1int
            } else {
                0
            },
    {
        let done: bool = self.reconcile();
        let ghost between = *self;
        assert(counted_up(*old(self), between, done));
        if !done || !self.pushable(&buffer) {
            return None;
        }
        let owner = self.owner.clone();
        let frames: usize = buffer.frames();
        let id: u64 = self.next_source_id;
        self.next_source_id = id + 1;
        match owner.begin_enqueue(self.scope, frames) {
            Err(outcome) => Some(outcome),
            Ok(ticket) => {
                let (queued_frames, queued_buffers): (usize, usize) = self.push_counted(id, buffer);
                let ghost held = ticket;
                let outcome = ticket.commit(queued_frames, queued_buffers);
                proof {
                    held.lemma_committed(
                        owner,
                        self.scope,
                        frames,
                        queued_frames,
                        queued_buffers,
                    );
                }
                Some(outcome)
            },
        }
    }

    /// Hand in a buffer. `after_accounting` runs between the decision and its
    /// validation. `Err` gives the buffer back for another try; it never stands
    /// for a full queue. Identities are given to accepted buffers only.
    pub fn try_enqueue<F: FnOnce()>(
        &mut self,
        buffer: AudioBuffer,
        gate: &ControlGate,
        after_accounting: F,
    ) -> (result: Result<EnqueueOutcome, AudioBuffer>)
        requires
            old(self).well_formed(),
            call_requires(after_accounting, ()),
        ensures
            final(self).well_formed(),
            result matches Ok(EnqueueOutcome::Accepted { .. }) ==> call_ensures(
                after_accounting,
                (),
                (),
            ),
            admitted(*gate, *old(self), *final(self), buffer, result),
            match result {
                Ok(EnqueueOutcome::Accepted { queued_frames, queued_buffers }) => (
                queued_frames as int, queued_buffers as int) == queued(
                    final(self).source.cursor.source(),
                    final(self).source.cursor.pending_frames,
                    final(self).source.channels as int,
                ),
                Ok(refused) => {
                    &&& final(self).same_but_settled(*old(self))
                    &&& *final(self) == *old(self) || kept_pace(*gate, *old(self), *final(self))
                    &&& enqueue_answers(
                        old(self).owner.limits(),
                        old(self).scope,
                        buffer.frame_count() as usize,
                        refused,
                    )
                    &&& refused is Full ==> admission_stood(*gate, *old(self), *final(self))
                },
                Err(back) => back == buffer && final(self).same_but_settled(*old(self)) && (
                *final(self) == *old(self) || kept_pace(*gate, *old(self), *final(self))),
            },
    {
        let ghost first = *self;
        proof {
            assert(settled(first.source.cursor.source(), self.source.cursor.source()));
        }
        let owner = self.owner.clone();
        let frames: usize = buffer.frames();
        let mut found = admission_of(owner.needs_terminal_check(self.scope));
        if found.closed {
            match owner.begin_enqueue(self.scope, frames) {
                Err(outcome) => {
                    found.answer = Some(OwnerAnswer::Refuses { outcome });
                },
                Ok(ticket) => {
                    // A closed scope does not open again; whatever was there stays.
                    let ghost held = ticket;
                    ticket.release();
                    proof {
                        held.lemma_released(owner, self.scope, frames);
                    }
                    found.answer = Some(OwnerAnswer::Admits);
                },
            }
            assert(found_of(found, *gate, first, *self, buffer));
            return match admission_step(found) {
                AdmissionStep::Answer { outcome } => Ok(outcome),
                _ => Err(buffer),
            };
        }
        let view = match self.try_reconcile(gate) {
            Ok(view) => view,
            Err(_) => {
                assert(found_of(found, *gate, first, *self, buffer));
                return Err(buffer);
            },
        };
        let ghost seen = view.seen();
        assert(paced_under(*gate, first, *self, seen));
        assert(keeps_pace(*gate, first, *self, Some(seen), true));
        let (queued_frames, queued_buffers): (usize, usize) = match self.source.cursor.counts(
            self.source.channels,
        ) {
            Some(counts) => counts,
            None => {
                assert(found_of(found, *gate, first, *self, buffer));
                return Err(buffer);
            },
        };
        found.caught_up = true;
        found.fits = self.limits.admits(queued_frames, queued_buffers, frames);
        found.appends = self.source.cursor.appends(&buffer);
        after_accounting();
        let replaces: bool = admission_step(found) == AdmissionStep::Replace;
        let stands = gate.conclude(view, replaces);
        found.stood = Some(stands.is_some());
        assert(gate.is_concluded(seen, replaces, stands));
        found.pushable = self.pushable(&buffer);
        let ghost between = *self;
        assert(found.replaces() == replaces);
        assert(found.stands_by(*gate, seen));
        assert(found_of(found, *gate, first, between, buffer));
        match admission_step(found) {
            AdmissionStep::Ask => {},
            _ => {
                return Err(buffer);
            },
        }
        match owner.begin_enqueue(self.scope, frames) {
            Err(outcome) => {
                found.answer = Some(OwnerAnswer::Refuses { outcome });
                assert(found.replaces() == replaces);
                assert(found.stands_by(*gate, seen));
                assert(found_of(found, *gate, first, between, buffer));
                match admission_step(found) {
                    AdmissionStep::Answer { outcome } => Ok(outcome),
                    _ => Err(buffer),
                }
            },
            Ok(ticket) => {
                found.answer = Some(OwnerAnswer::Admits);
                assert(found.replaces() == replaces);
                assert(found.stands_by(*gate, seen));
                assert(found_of(found, *gate, first, between, buffer));
                match admission_step(found) {
                    AdmissionStep::Push => {
                        let id: u64 = self.next_source_id;
                        self.next_source_id = id + 1;
                        let (now_frames, now_buffers): (usize, usize) = self.push_counted(
                            id,
                            buffer,
                        );
                        assert(taken_in(between, *self, buffer));
                        let ghost held = ticket;
                        let outcome = ticket.commit(now_frames, now_buffers);
                        proof {
                            held.lemma_committed(
                                owner,
                                self.scope,
                                frames,
                                now_frames,
                                now_buffers,
                            );
                        }
                        Ok(outcome)
                    },
                    _ => {
                        // Nothing else is left for a buffer that is admitted.
                        ticket.release();
                        Err(buffer)
                    },
                }
            },
        }
    }

    /// Move the timeline to a time.
    pub fn try_reanchor(&mut self, gate: &ControlGate, cursor_us: i64) -> (result: Result<(), ()>)
        requires
            old(self).well_formed(),
        ensures
            final(self).well_formed(),
            match result {
                Ok(_) => exists|between: SourceLedger| #[trigger]
                    committed_from(*gate, *old(self), between, Notice::Reanchored)
                        && between.same_but_settled(*old(self)) && old(self).plays_on(
                        between.source.cursor.source(),
                    ) && reanchored(between, *final(self), cursor_us),
                Err(_) => not_committed(*gate, *old(self), *final(self), Notice::Reanchored)
                    && old(self).plays_on(final(self).source.cursor.source())
                    && final(self).same_but_settled(*old(self)),
            },
    {
        let target = move || -> (target: Option<i64>)
            ensures
                target == Some(cursor_us),
        { Some(cursor_us) };
        match self.try_reanchor_with(gate, target) {
            Ok(_) => Ok(()),
            Err(_) => {
                assert(!call_ensures(target, (), None));
                Err(())
            },
        }
    }

    /// Move the timeline. The target is asked for once what the device has played
    /// is taken over, and is not kept where the move fails.
    pub fn try_reanchor_with<F: FnOnce() -> Option<i64>>(
        &mut self,
        gate: &ControlGate,
        target_now: F,
    ) -> (result: Result<i64, ()>)
        requires
            old(self).well_formed(),
            call_requires(target_now, ()),
        ensures
            final(self).well_formed(),
            match result {
                Ok(cursor) => call_ensures(target_now, (), Some(cursor)) && exists|
                    between: SourceLedger,
                | #[trigger]
                    committed_from(*gate, *old(self), between, Notice::Reanchored)
                        && between.same_but_settled(*old(self)) && old(self).plays_on(
                        between.source.cursor.source(),
                    ) && reanchored(between, *final(self), cursor),
                Err(_) => {
                    &&& old(self).plays_on(final(self).source.cursor.source())
                    &&& final(self).same_but_settled(*old(self))
                    &&& not_committed(*gate, *old(self), *final(self), Notice::Reanchored) || (
                    call_ensures(target_now, (), None) && exists|seen: GateView| #[trigger]
                        paced_under(*gate, *old(self), *final(self), seen))
                },
            },
            result is Ok ==> (old(self).publication matches Some(publication)
                ==> publication.makes(CheckpointStep::InvalidateForReanchor)),
    {
        let view = match self.try_reconcile(gate) {
            Ok(view) => view,
            Err(_) => {
                return Err(());
            },
        };
        let ghost between = *self;
        let ghost seen = view.seen();
        assert(paced_under(*gate, *old(self), between, seen));
        let cursor_us: i64 = match target_now() {
            Some(cursor_us) => cursor_us,
            None => {
                return Err(());
            },
        };
        if !view.can_commit() {
            return Err(());
        }
        let attempt = gate.reanchor(view);
        assert(gate.commits(seen, Notice::Reanchored, attempt));
        if attempt.is_err() {
            return Err(());
        }
        assert(committed_from(*gate, *old(self), between, Notice::Reanchored));
        self.source.cursor.cursor_us = cursor_us;
        self.source.cursor.cursor_remainder = 0;
        proof {
            lemma_same_order(between.source.cursor, self.source.cursor);
            assert(reanchored(between, *self, cursor_us));
        }
        match &self.publication {
            Some(publication) => {
                publication.invalidate_for_reanchor();
            },
            None => {},
        }
        Ok(cursor_us)
    }

    /// Give up the source.
    pub fn try_clear(&mut self, gate: &ControlGate) -> (result: Result<
        RendererOperationOutcome,
        (),
    >)
        requires
            old(self).well_formed(),
        ensures
            final(self).well_formed(),
            final(self).next_source_id == old(self).next_source_id,
            clear_tried(*gate, *old(self), *final(self), result),
    {
        self.try_clear_with(gate, || {})
    }

    /// Give up the source, and run `invalidate_preparation` once it is given up.
    /// What the device has consumed stays consumed.
    pub fn try_clear_with<F: FnOnce()>(
        &mut self,
        gate: &ControlGate,
        invalidate_preparation: F,
    ) -> (result: Result<RendererOperationOutcome, ()>)
        requires
            old(self).well_formed(),
            call_requires(invalidate_preparation, ()),
        ensures
            final(self).well_formed(),
            result == Ok::<RendererOperationOutcome, ()>(RendererOperationOutcome::Applied)
                ==> call_ensures(invalidate_preparation, (), ()),
            final(self).next_source_id == old(self).next_source_id,
            clear_tried(*gate, *old(self), *final(self), result),
    {
        let view = match self.try_reconcile(gate) {
            Ok(view) => view,
            Err(_) => {
                return Err(());
            },
        };
        let ghost between = *self;
        let ghost seen = view.seen();
        assert(paced_under(*gate, *old(self), between, seen));
        if !view.can_commit() {
            return Err(());
        }
        let attempt = gate.clear(view);
        assert(gate.commits(seen, Notice::Cleared, attempt));
        if attempt.is_err() {
            return Err(());
        }
        assert(committed_from(*gate, *old(self), between, Notice::Cleared));
        let answer = self.owner.clear(self.scope);
        let outcome = match answer {
            Ok(outcome) => outcome,
            Err(_) => {
                return Err(());
            },
        };
        if outcome == RendererOperationOutcome::Applied {
            self.source.reset();
            match &self.publication {
                Some(publication) => {
                    publication.invalidate_after_clear();
                },
                None => {},
            }
            invalidate_preparation();
        }
        Ok(outcome)
    }
}

fn widened(count: usize) -> (wide: u64)
    ensures
        wide == count,
{
    count as u64
}

} // verus!
