//! Serialized non-realtime transactions on the source. Each one first takes over
//! what the device has actually played. Preparation never advances public
//! consumption, and never decides what is enqueued.
use super::ingress::checkpoint::{PublishedCheckpoint, SourcePosition};
use super::ingress::control::{committed_says, Notice};
use super::ingress::{ControlGate, GateView, Observation};
use super::preparation::{holds, reconciled};
use super::queue::{
    first_playable, is_playing_at, lemma_same_order, pushed, the_first_playable_time_is_found,
    the_first_playable_time_is_the_least, total_frames, Entry, PlaybackQueue, Source,
};
use super::shared::got_u64;
use crate::audio::owner::{enqueue_answers, OwnerState};
use crate::audio::{
    AudioBuffer, EnqueueOutcome, PlayerScope, RendererOperationOutcome, RendererOwner,
    RendererQueueLimits, TerminalOutcome, TerminalWinner,
};
use std::sync::atomic::{AtomicU64, Ordering};
use std::sync::Arc;
use vstd::prelude::*;

verus! {

/// What a source and its device share.
pub struct Publication {
    pub control: Arc<ControlGate>,
    pub checkpoint: Arc<PublishedCheckpoint>,
    pub consumed: Arc<AtomicU64>,
    pub limits: RendererQueueLimits,
    pub channels: usize,
}

impl Publication {
    /// Share the control gate and the counter of a scope. `Err` where the scope is stale.
    pub fn new(
        owner: &RendererOwner,
        scope: PlayerScope,
        channels: usize,
        limits: RendererQueueLimits,
    ) -> (publication: Result<Arc<Publication>, RendererOperationOutcome>)
        ensures
            match publication {
                Ok(p) => {
                    &&& p.channels == channels && p.limits == limits
                    &&& p.checkpoint.is_fresh()
                    &&& exists|found: OwnerState| #[trigger]
                        owner.turns(found, found) && found.book.id == scope.id && p.control
                            == found.gate
                    &&& exists|found: OwnerState| #[trigger]
                        owner.turns(found, found) && found.book.id == scope.id && p.consumed
                            == found.consumed
                },
                Err(error) => error == RendererOperationOutcome::StaleScope && exists|
                    found: OwnerState,
                | #[trigger]
                    owner.turns(found, found) && found.book.id != scope.id,
            },
    {
        let control = match owner.control_gate(scope) {
            Ok(control) => control,
            Err(error) => {
                return Err(error);
            },
        };
        let consumed = match owner.consumption_counter(scope) {
            Ok(consumed) => consumed,
            Err(error) => {
                return Err(error);
            },
        };
        let checkpoint = Arc::new(PublishedCheckpoint::new());
        Ok(Arc::new(Publication { control, checkpoint, consumed, limits, channels }))
    }
}

/// A source that has at most been moved to an actual position that belongs to it.
pub open spec fn settled(before: Source, after: Source) -> bool {
    ||| after == before
    ||| exists|position: SourcePosition| #[trigger]
        holds(before, position) && after == reconciled(before, position)
}

/// What was found of the device: whether its scope is open, whether it could be observed,
/// whether a position counts, the position and the frames consumed up to it, the frames
/// consumed as they were counted, and whether the owner took over what is queued and the
/// observation stood.
#[derive(Clone, Copy, Debug, PartialEq, Eq)]
pub struct Pace {
    pub open: bool,
    pub observed: bool,
    pub counted: bool,
    pub read: Option<(SourcePosition, u64)>,
    pub consumed: u64,
    pub told: bool,
    pub stood: bool,
}

impl Pace {
    /// Nothing was found.
    pub fn nothing() -> (pace: Pace)
        ensures
            pace == Pace::none(),
    {
        Pace {
            open: false,
            observed: false,
            counted: false,
            read: None,
            consumed: 0,
            told: false,
            stood: false,
        }
    }

    pub open spec fn none() -> Pace {
        Pace {
            open: false,
            observed: false,
            counted: false,
            read: None,
            consumed: 0,
            told: false,
            stood: false,
        }
    }

    /// The same, once the owner has answered.
    pub open spec fn answered(self, told: bool) -> Pace {
        Pace { told, ..self }
    }
}

/// Whether what is queued can be counted.
pub open spec fn countable(queue: PlaybackQueue, channels: usize) -> bool {
    let counts = queued(queue.source(), queue.pending_frames, channels as int);
    counts.0 <= usize::MAX && counts.1 <= usize::MAX
}

/// How a queue takes over what the device has played, from what it found, and whether that
/// succeeded.
pub open spec fn followed_pace(
    before: PlaybackQueue,
    after: PlaybackQueue,
    channels: usize,
    pace: Pace,
    ok: bool,
) -> bool {
    if !pace.open || !pace.observed {
        after == before && !ok
    } else if !pace.counted {
        after == before && ok == (pace.consumed == before.settled_consumed && pace.stood)
    } else {
        match pace.read {
            Some((position, frames)) => if countable(before, channels) && holds(
                before.source(),
                position,
            ) {
                &&& after.source() == reconciled(before.source(), position)
                &&& after.settled_consumed == frames
                &&& ok == (countable(after, channels) && pace.told)
            } else {
                after == before && !ok
            },
            None => after == before && !ok,
        }
    }
}

/// Whether a queue that follows the device comes to tell the owner what is queued: once
/// it has moved to a position and can count what is left.
pub open spec fn comes_to_tell(
    before: PlaybackQueue,
    after: PlaybackQueue,
    channels: usize,
    pace: Pace,
) -> bool {
    &&& pace.open && pace.observed && pace.counted
    &&& pace.read matches Some((position, _)) && holds(before.source(), position)
    &&& countable(before, channels)
    &&& countable(after, channels)
}

/// What was found of the device is what the shared memory gave: the owner was asked whether
/// the scope is open, the control gate was observed, and the checkpoint was read under that
/// observation, or the frames consumed and then the observation validated.
pub open spec fn pace_found(
    publication: Publication,
    owner: RendererOwner,
    scope: PlayerScope,
    pace: Pace,
    seen: Option<GateView>,
) -> bool {
    &&& owner.is_checked(scope, !pace.open)
    &&& if pace.open {
        publication.control.observes(seen)
    } else {
        seen is None
    }
    &&& pace.observed == seen is Some
    &&& seen matches Some(view) ==> {
        &&& publication.checkpoint.reads_validity(pace.counted)
        &&& if pace.counted {
            publication.checkpoint.is_read(
                *publication.control,
                view,
                *publication.consumed,
                pace.read,
            )
        } else {
            got_u64(*publication.consumed, pace.consumed) && publication.control.validates(
                view,
                pace.stood,
            )
        }
    }
}

/// How a queue follows the device from what the shared memory gave. Where it comes to that,
/// the owner is told what is queued.
pub open spec fn follows_from(
    publication: Publication,
    owner: RendererOwner,
    scope: PlayerScope,
    before: PlaybackQueue,
    after: PlaybackQueue,
    pace: Pace,
    seen: Option<GateView>,
    ok: bool,
) -> bool {
    &&& pace_found(publication, owner, scope, pace, seen)
    &&& followed_pace(before, after, publication.channels, pace, ok)
    &&& comes_to_tell(before, after, publication.channels, pace) ==> queue_told(
        owner,
        scope,
        after,
        publication.channels,
        pace.told,
    )
}

/// The owner was told what a queue holds, and whether it took that over.
pub open spec fn queue_told(
    owner: RendererOwner,
    scope: PlayerScope,
    queue: PlaybackQueue,
    channels: usize,
    told: bool,
) -> bool {
    let counts = queued(queue.source(), queue.pending_frames, channels as int);
    owner.is_told(scope, counts.0 as usize, counts.1 as usize, told)
}

/// A queue that was to follow the device, under what was seen of the control gate, and
/// whether it could.
pub open spec fn follows(
    publication: Publication,
    owner: RendererOwner,
    scope: PlayerScope,
    before: PlaybackQueue,
    after: PlaybackQueue,
    seen: Option<GateView>,
    ok: bool,
) -> bool {
    exists|pace: Pace| #[trigger]
        follows_from(publication, owner, scope, before, after, pace, seen, ok)
}

/// A queue that has taken over what the device has played, under what was seen.
pub open spec fn followed_under(
    publication: Publication,
    owner: RendererOwner,
    scope: PlayerScope,
    before: PlaybackQueue,
    after: PlaybackQueue,
    seen: GateView,
) -> bool {
    follows(publication, owner, scope, before, after, Some(seen), true)
}

/// A queue that has taken over what the device has played.
pub open spec fn followed(
    publication: Publication,
    owner: RendererOwner,
    scope: PlayerScope,
    before: PlaybackQueue,
    after: PlaybackQueue,
) -> bool {
    exists|seen: GateView| #[trigger]
        followed_under(publication, owner, scope, before, after, seen)
}

/// A queue that has taken over what the device has played, or has tried to.
pub open spec fn tried_to_follow(
    publication: Publication,
    owner: RendererOwner,
    scope: PlayerScope,
    before: PlaybackQueue,
    after: PlaybackQueue,
) -> bool {
    exists|seen: Option<GateView>, ok: bool| #[trigger]
        follows(publication, owner, scope, before, after, seen, ok)
}

/// A buffer that is accepted: it can be pushed once the queue has followed the device, and
/// is queued then.
pub open spec fn accepted_into(
    between: PlaybackQueue,
    after: PlaybackQueue,
    buffer: AudioBuffer,
    channels: usize,
) -> bool {
    &&& between.can_push(buffer, channels as int)
    &&& after.source() == between.source_with(between.entry_of(buffer))
    &&& after.initialized
    &&& after.force_reanchor == (between.force_reanchor || !between.initialized)
    &&& after.generation == between.generation
    &&& after.attached == between.attached
    &&& after.next_source_id == between.next_source_id + 1
    &&& after.enqueue_count == between.enqueue_count + 1
    &&& after.settled_consumed == between.settled_consumed
}

/// What the owner says to a buffer.
#[derive(Clone, Copy, Debug, PartialEq, Eq, Structural)]
pub enum OwnerAnswer {
    Admits,
    Refuses { outcome: EnqueueOutcome },
}

/// What has been found of a buffer that is handed in, as far as that has got: whether
/// the scope is closed, whether the device's playing is taken over and counted, whether
/// the buffer fits and only extends what is pending, whether the observation still stood
/// when the decision was made, whether the buffer can be numbered and counted, and what
/// the owner says.
#[derive(Clone, Copy, Debug, PartialEq, Eq)]
pub struct Admission {
    pub closed: bool,
    pub caught_up: bool,
    pub fits: bool,
    pub appends: bool,
    pub stood: Option<bool>,
    pub pushable: bool,
    pub answer: Option<OwnerAnswer>,
}

/// What handing in a buffer comes to next.
#[derive(Clone, Copy, Debug, PartialEq, Eq, Structural)]
pub enum AdmissionStep {
    /// A new version is taken: prepared windows that come after the buffer are out of
    /// order.
    Replace,
    /// The observation is validated: prepared windows stay valid.
    Validate,
    /// The owner is asked.
    Ask,
    /// The buffer is queued.
    Push,
    /// The owner's answer is given.
    Answer { outcome: EnqueueOutcome },
    /// The buffer goes back for another try.
    Retry,
}

impl Admission {
    /// What comes next. A closed scope is answered by its owner alone. An open one is
    /// answered by its owner too, but only for an observation that stood.
    pub open spec fn next_step(self) -> AdmissionStep {
        if self.closed {
            match self.answer {
                None => AdmissionStep::Ask,
                Some(OwnerAnswer::Refuses { outcome }) => AdmissionStep::Answer { outcome },
                Some(OwnerAnswer::Admits) => AdmissionStep::Retry,
            }
        } else if !self.caught_up {
            AdmissionStep::Retry
        } else {
            match self.stood {
                None => if self.fits && !self.appends {
                    AdmissionStep::Replace
                } else {
                    AdmissionStep::Validate
                },
                Some(false) => AdmissionStep::Retry,
                Some(true) => if !self.pushable {
                    AdmissionStep::Retry
                } else {
                    match self.answer {
                        None => AdmissionStep::Ask,
                        Some(OwnerAnswer::Refuses { outcome }) => AdmissionStep::Answer { outcome },
                        Some(OwnerAnswer::Admits) => AdmissionStep::Push,
                    }
                },
            }
        }
    }

    /// Whether the buffer puts what is prepared out of order.
    pub open spec fn replaces(self) -> bool {
        self.fits && !self.appends
    }

    /// Whether the decision stood is what the control gate said as it was made final: by a
    /// new version where the buffer puts what is prepared out of order, else by validating
    /// what was seen.
    pub open spec fn stands_by(self, gate: ControlGate, seen: GateView) -> bool {
        self.stood matches Some(stood) ==> exists|stands: Option<GateView>| #[trigger]
            gate.is_concluded(seen, self.replaces(), stands) && stood == stands is Some
    }

    /// What is answered once nothing is left to be found.
    pub open spec fn concludes(
        self,
        buffer: AudioBuffer,
        result: Result<EnqueueOutcome, AudioBuffer>,
    ) -> bool {
        match self.next_step() {
            AdmissionStep::Push => result is Ok && result->Ok_0 is Accepted,
            AdmissionStep::Answer { outcome } => result == Ok::<EnqueueOutcome, AudioBuffer>(
                outcome,
            ) && !(outcome is Accepted),
            AdmissionStep::Retry => result == Err::<EnqueueOutcome, AudioBuffer>(buffer),
            _ => false,
        }
    }
}

/// Nothing is found of a buffer yet, but whether the scope is closed.
pub fn admission_of(closed: bool) -> (found: Admission)
    ensures
        found == (Admission {
            closed,
            caught_up: false,
            fits: false,
            appends: false,
            stood: None,
            pushable: false,
            answer: None,
        }),
{
    Admission {
        closed,
        caught_up: false,
        fits: false,
        appends: false,
        stood: None,
        pushable: false,
        answer: None,
    }
}

/// What handing in a buffer comes to next, from what has been found.
pub fn admission_step(found: Admission) -> (step: AdmissionStep)
    ensures
        step == found.next_step(),
{
    if !found.closed {
        if !found.caught_up {
            return AdmissionStep::Retry;
        }
        match found.stood {
            None => {
                return if found.fits && !found.appends {
                    AdmissionStep::Replace
                } else {
                    AdmissionStep::Validate
                };
            },
            Some(stood) => {
                if !stood || !found.pushable {
                    return AdmissionStep::Retry;
                }
            },
        }
    }
    match found.answer {
        None => AdmissionStep::Ask,
        Some(OwnerAnswer::Refuses { outcome }) => AdmissionStep::Answer { outcome },
        Some(OwnerAnswer::Admits) => if found.closed {
            AdmissionStep::Retry
        } else {
            AdmissionStep::Push
        },
    }
}

/// An open scope is never answered, and a buffer never queued, on an observation that did
/// not stand.
pub proof fn a_stale_answer_never_escapes(found: Admission)
    ensures
        found.next_step() is Answer ==> found.closed || (found.caught_up && found.stood == Some(
            true,
        )),
        found.next_step() is Push ==> !found.closed && found.caught_up && found.stood == Some(true),
{
}

/// A version is taken exactly for a buffer that fits and does not only extend what is
/// pending.
pub proof fn only_a_reordering_takes_a_version(found: Admission)
    requires
        !found.closed,
        found.caught_up,
        found.stood is None,
    ensures
        found.next_step() is Replace <==> found.fits && !found.appends,
        found.next_step() is Validate <==> !found.fits || found.appends,
{
}

/// A scope that is closed or replaced while a buffer is handed in is answered so,
/// whatever was decided before.
pub proof fn a_closed_scope_is_answered(found: Admission, outcome: EnqueueOutcome)
    requires
        outcome is Closed || outcome is StaleScope,
        found.answer == Some(OwnerAnswer::Refuses { outcome }),
        found.closed || (found.caught_up && found.stood == Some(true) && found.pushable),
    ensures
        found.next_step() == (AdmissionStep::Answer { outcome }),
{
}

/// A queue that could not follow the device, or cannot count what is left.
pub open spec fn not_caught_up(
    publication: Publication,
    owner: RendererOwner,
    scope: PlayerScope,
    before: PlaybackQueue,
    after: PlaybackQueue,
) -> bool {
    ||| exists|seen: Option<GateView>| #[trigger]
        follows(publication, owner, scope, before, after, seen, false)
    ||| followed(publication, owner, scope, before, after) && !countable(
        after,
        publication.channels,
    )
}

/// What was found of a buffer, told of the queue that has taken over what the device
/// has played.
pub open spec fn found_of(
    found: Admission,
    before: PlaybackQueue,
    between: PlaybackQueue,
    publication: Publication,
    owner: RendererOwner,
    scope: PlayerScope,
    buffer: AudioBuffer,
    frames: usize,
) -> bool {
    let channels = publication.channels;
    let counts = queued(between.source(), between.pending_frames, channels as int);
    &&& between.same_but_settled(before)
    &&& settled(before.source(), between.source())
    &&& tried_to_follow(publication, owner, scope, before, between)
    &&& owner.is_checked(scope, found.closed)
    &&& found.closed ==> between == before
    &&& found.caught_up ==> {
        &&& exists|seen: GateView| #[trigger]
            followed_under(publication, owner, scope, before, between, seen) && found.stands_by(
                *publication.control,
                seen,
            )
        &&& countable(between, channels)
        &&& found.fits == publication.limits.fits(counts.0, counts.1, frames as int)
        &&& found.appends == between.extends(buffer)
    }
    &&& found.caught_up && found.stood is Some ==> found.pushable == between.can_push(
        buffer,
        channels as int,
    )
    &&& !found.closed && !found.caught_up ==> not_caught_up(
        publication,
        owner,
        scope,
        before,
        between,
    )
    &&& found.closed && found.answer == Some(OwnerAnswer::Admits) ==> owner.admits(scope, frames)
    &&& found.answer matches Some(OwnerAnswer::Refuses { outcome }) ==> owner.answers_enqueue(
        scope,
        frames,
        outcome,
    )
}

/// What becomes of a buffer that is handed in: what was found of it decides, and the
/// queue holds it where it is accepted. Everyone else leaves the queue as the device has
/// played it.
pub open spec fn admitted(
    before: PlaybackQueue,
    after: PlaybackQueue,
    publication: Publication,
    owner: RendererOwner,
    scope: PlayerScope,
    buffer: AudioBuffer,
    frames: usize,
    result: Result<EnqueueOutcome, AudioBuffer>,
) -> bool {
    exists|found: Admission, between: PlaybackQueue| #[trigger]
        found_of(found, before, between, publication, owner, scope, buffer, frames)
            && found.concludes(buffer, result) && if found.next_step() is Push {
            &&& accepted_into(between, after, buffer, publication.channels)
            &&& result matches Ok(EnqueueOutcome::Accepted { queued_frames, queued_buffers })
                && owner.takes_in(scope, frames, queued_frames, queued_buffers)
        } else {
            after == between
        }
}

/// Frames and buffers queued.
pub open spec fn queued(s: Source, pending_frames: usize, channels: int) -> (int, int) {
    (s.left() / channels + pending_frames, s.order().len() as int)
}

impl PlaybackQueue {
    /// Frames and buffers queued, as far as they can be told.
    pub fn counts(&self, channels: usize) -> (counts: Option<(usize, usize)>)
        requires
            channels > 0,
        ensures
            match counts {
                Some(c) => (c.0 as int, c.1 as int) == queued(
                    self.source(),
                    self.pending_frames,
                    channels as int,
                ),
                None => queued(self.source(), self.pending_frames, channels as int).0 > usize::MAX
                    || queued(self.source(), self.pending_frames, channels as int).1 > usize::MAX,
            },
    {
        let left: usize = self.left_samples() / channels;
        let frames: usize = left.checked_add(self.pending_frames)?;
        let buffers: usize = if self.current.is_some() {
            self.queue.len().checked_add(1)?
        } else {
            self.queue.len()
        };
        Some((frames, buffers))
    }

    /// Share a publication, from the frames consumed so far on.
    pub fn attach_publication(&mut self, publication: &Publication)
        requires
            !old(self).attached,
        ensures
            final(self).attached,
            *final(self) == (PlaybackQueue {
                attached: true,
                settled_consumed: final(self).settled_consumed,
                ..*old(self)
            }),
            got_u64(*publication.consumed, final(self).settled_consumed),
    {
        self.settled_consumed = publication.consumed.load(Ordering::Acquire);
        self.attached = true;
    }

    /// Take over an actual position and the frames consumed up to it. A position
    /// that does not belong to this view is refused, and nothing changes.
    pub fn settle(&mut self, position: SourcePosition, source_frames: u64) -> (taken: bool)
        requires
            old(self).well_formed(),
            old(self).source().order().len() <= usize::MAX,
        ensures
            final(self).well_formed(),
            taken == holds(old(self).source(), position),
            taken ==> final(self).source() == reconciled(old(self).source(), position)
                && final(self).settled_consumed == source_frames,
            !taken ==> *final(self) == *old(self),
            final(self).same_but_settled(*old(self)),
    {
        if !self.holds_position(position) {
            return false;
        }
        self.reconcile_source(position);
        let ghost moved = *self;
        self.settled_consumed = source_frames;
        proof {
            lemma_same_order(moved, *self);
        }
        true
    }

    /// Everything but the playing state and what is settled stays.
    pub open spec fn same_but_settled(&self, before: PlaybackQueue) -> bool {
        &&& self.next_source_id == before.next_source_id
        &&& self.pending_end_upper_bound == before.pending_end_upper_bound
        &&& self.initialized == before.initialized
        &&& self.generation == before.generation
        &&& self.force_reanchor == before.force_reanchor
        &&& self.enqueue_count == before.enqueue_count
        &&& self.attached == before.attached
    }

    /// Take over what the device has played, from what was found of it. `tell` tells
    /// the owner the frames and buffers that are queued then. The answer is whether
    /// that succeeded; what has been taken over until then is kept, because the
    /// device has played it.
    pub fn follow<F: FnOnce(usize, usize) -> bool>(
        &mut self,
        found: Pace,
        channels: usize,
        tell: F,
    ) -> (ok: bool)
        requires
            old(self).well_formed(),
            channels > 0,
            forall|frames: usize, buffers: usize| call_requires(tell, (frames, buffers)),
        ensures
            final(self).well_formed(),
            final(self).same_but_settled(*old(self)),
            settled(old(self).source(), final(self).source()),
            exists|told: bool|
                {
                    &&& #[trigger] followed_pace(
                        *old(self),
                        *final(self),
                        channels,
                        found.answered(told),
                        ok,
                    )
                    &&& comes_to_tell(*old(self), *final(self), channels, found) ==> call_ensures(
                        tell,
                        (
                            queued(
                                final(self).source(),
                                final(self).pending_frames,
                                channels as int,
                            ).0 as usize,
                            queued(
                                final(self).source(),
                                final(self).pending_frames,
                                channels as int,
                            ).1 as usize,
                        ),
                        told,
                    )
                },
    {
        let ghost first = *self;
        if !found.open || !found.observed {
            assert(followed_pace(first, *self, channels, found.answered(false), false));
            return false;
        }
        if !found.counted {
            let ok: bool = found.consumed == self.settled_consumed && found.stood;
            assert(followed_pace(first, *self, channels, found.answered(false), ok));
            return ok;
        }
        let (position, source_frames): (SourcePosition, u64) = match found.read {
            Some(read) => read,
            None => {
                assert(followed_pace(first, *self, channels, found.answered(false), false));
                return false;
            },
        };
        if self.counts(channels).is_none() || !self.settle(position, source_frames) {
            assert(followed_pace(first, *self, channels, found.answered(false), false));
            return false;
        }
        match self.counts(channels) {
            Some((frames, buffers)) => {
                let told: bool = tell(frames, buffers);
                assert(followed_pace(first, *self, channels, found.answered(told), told));
                told
            },
            None => {
                assert(followed_pace(first, *self, channels, found.answered(false), false));
                false
            },
        }
    }

    /// Observe between callbacks, and take over what the device has played. `Err`
    /// asks the caller to try again; what has been taken over until then is kept,
    /// because the device has played it. A scope that is closed or stale is not
    /// touched.
    pub fn reconcile_actual<'a>(
        &mut self,
        publication: &'a Publication,
        owner: &RendererOwner,
        scope: PlayerScope,
    ) -> (result: Result<Observation<'a>, ()>)
        requires
            old(self).well_formed(),
            publication.channels > 0,
        ensures
            final(self).well_formed(),
            final(self).same_but_settled(*old(self)),
            settled(old(self).source(), final(self).source()),
            match result {
                Ok(o) => {
                    &&& o.of() == publication.control
                    &&& !o.seen().says().active
                    &&& followed_under(
                        *publication,
                        *owner,
                        scope,
                        *old(self),
                        *final(self),
                        o.seen(),
                    )
                },
                Err(_) => exists|seen: Option<GateView>| #[trigger]
                    follows(*publication, *owner, scope, *old(self), *final(self), seen, false),
            },
    {
        let mut found = Pace::nothing();
        found.open = !owner.needs_terminal_check(scope);
        let mut stands: Option<Observation<'a>> = None;
        let ghost mut seen: Option<GateView> = None;
        if found.open {
            match publication.control.observe() {
                Some(view) => {
                    found.observed = true;
                    proof {
                        seen = Some(view.seen());
                    }
                    found.counted = publication.checkpoint.is_valid();
                    if found.counted {
                        match publication.checkpoint.read_observed(view, &publication.consumed) {
                            Some(actual) => {
                                found.read = Some((actual.position, actual.source_frames));
                                stands = Some(actual.view);
                            },
                            None => {},
                        }
                    } else {
                        found.consumed = publication.consumed.load(Ordering::Acquire);
                        found.stood = publication.control.validate(&view);
                        stands = Some(view);
                    }
                },
                None => {},
            }
        }
        let tell = |frames: usize, buffers: usize| -> (told: bool)
            ensures
                owner.is_told(scope, frames, buffers, told),
            {
                let outcome = owner.reconcile_queue(scope, frames, buffers);
                outcome == RendererOperationOutcome::Applied
            };
        let ok: bool = self.follow(found, publication.channels, tell);
        proof {
            let c = publication.channels;
            let told = choose|told: bool| #[trigger]
                followed_pace(*old(self), *self, c, found.answered(told), ok) && (comes_to_tell(
                    *old(self),
                    *self,
                    c,
                    found,
                ) ==> queue_told(*owner, scope, *self, c, told));
            assert(pace_found(*publication, *owner, scope, found.answered(told), seen));
            assert(follows_from(
                *publication,
                *owner,
                scope,
                *old(self),
                *self,
                found.answered(told),
                seen,
                ok,
            ));
            assert(follows(*publication, *owner, scope, *old(self), *self, seen, ok));
        }
        match stands {
            Some(view) if ok => Ok(view),
            _ => {
                assert(!ok);
                Err(())
            },
        }
    }

    /// Whether a buffer can be numbered and counted beside what is queued.
    pub open spec fn can_push(&self, buffer: AudioBuffer, channels: int) -> bool {
        &&& self.next_source_id < u64::MAX
        &&& self.enqueue_count < u64::MAX
        &&& queued(self.source(), self.pending_frames, channels).0 + buffer.frame_count()
            <= usize::MAX
        &&& queued(self.source(), self.pending_frames, channels).1 + 1 <= usize::MAX
    }

    fn pushable(&self, buffer: &AudioBuffer, channels: usize) -> (can: bool)
        requires
            channels > 0,
        ensures
            can == self.can_push(*buffer, channels as int),
    {
        match self.counts(channels) {
            Some(counts) => match counts.0.checked_add(buffer.frames()) {
                Some(_) => counts.1.checked_add(1).is_some() && self.next_source_id < u64::MAX
                    && self.enqueue_count < u64::MAX,
                None => false,
            },
            None => false,
        }
    }

    /// Queue a buffer and count it.
    fn push_counted(&mut self, buffer: AudioBuffer, channels: usize) -> (counts: (usize, usize))
        requires
            old(self).well_formed(),
            channels > 0,
            old(self).can_push(buffer, channels as int),
        ensures
            final(self).well_formed(),
            accepted_into(*old(self), *final(self), buffer, channels),
            (counts.0 as int, counts.1 as int) == queued(
                final(self).source(),
                final(self).pending_frames,
                channels as int,
            ),
    {
        let ghost before = *self;
        proof {
            assert(before.source().left() / channels as int >= 0) by (nonlinear_arith)
                requires
                    before.source().left() >= 0,
                    channels > 0,
            ;
        }
        self.push(buffer);
        proof {
            super::queue::lemma_pushed_length(
                before.source().pending,
                before.entry_of(buffer),
            );
        }
        let ghost with_buffer = *self;
        self.enqueue_count = self.enqueue_count + 1;
        proof {
            lemma_same_order(with_buffer, *self);
        }
        match self.counts(channels) {
            Some(counts) => counts,
            None => {
                assert(false);
                (0, 0)
            },
        }
    }

    /// Hand in a buffer. The decision rests on what the device has actually
    /// played, and is validated before it is final: an `Err` gives the buffer back
    /// for another try, and never stands for a full queue. A buffer that only
    /// extends what is pending leaves prepared windows valid; any other takes a
    /// new version.
    pub fn try_enqueue_prepared(
        &mut self,
        publication: &Publication,
        owner: &RendererOwner,
        scope: PlayerScope,
        buffer: AudioBuffer,
        frames: usize,
    ) -> (result: Result<EnqueueOutcome, AudioBuffer>)
        requires
            old(self).well_formed(),
            publication.channels > 0,
        ensures
            final(self).well_formed(),
            admitted(
                *old(self),
                *final(self),
                *publication,
                *owner,
                scope,
                buffer,
                frames,
                result,
            ),
            match result {
                Ok(EnqueueOutcome::Accepted { queued_frames, queued_buffers }) => {
                    &&& 0 < frames <= owner.limits().chunk()
                    &&& (queued_frames as int, queued_buffers as int) == queued(
                        final(self).source(),
                        final(self).pending_frames,
                        publication.channels as int,
                    )
                },
                Ok(EnqueueOutcome::Full { .. }) => *final(self) == *old(self) || followed(
                    *publication,
                    *owner,
                    scope,
                    *old(self),
                    *final(self),
                ),
                _ => true,
            },
            result matches Ok(refused) ==> refused is Accepted || (enqueue_answers(
                owner.limits(),
                scope,
                frames,
                refused,
            ) && final(self).same_but_settled(*old(self))),
            result matches Err(back) ==> back == buffer && final(self).same_but_settled(*old(self))
                && tried_to_follow(*publication, *owner, scope, *old(self), *final(self)),
    {
        self.try_enqueue_prepared_with(publication, owner, scope, buffer, frames, || {})
    }

    /// Hand in a buffer, and run `before_validation` between the decision and its
    /// validation.
    pub fn try_enqueue_prepared_with<F: FnOnce()>(
        &mut self,
        publication: &Publication,
        owner: &RendererOwner,
        scope: PlayerScope,
        buffer: AudioBuffer,
        frames: usize,
        before_validation: F,
    ) -> (result: Result<EnqueueOutcome, AudioBuffer>)
        requires
            old(self).well_formed(),
            publication.channels > 0,
            call_requires(before_validation, ()),
        ensures
            final(self).well_formed(),
            result matches Ok(EnqueueOutcome::Accepted { .. }) ==> call_ensures(
                before_validation,
                (),
                (),
            ),
            admitted(
                *old(self),
                *final(self),
                *publication,
                *owner,
                scope,
                buffer,
                frames,
                result,
            ),
            match result {
                Ok(EnqueueOutcome::Accepted { queued_frames, queued_buffers }) => {
                    &&& 0 < frames <= owner.limits().chunk()
                    &&& (queued_frames as int, queued_buffers as int) == queued(
                        final(self).source(),
                        final(self).pending_frames,
                        publication.channels as int,
                    )
                },
                Ok(EnqueueOutcome::Full { .. }) => *final(self) == *old(self) || followed(
                    *publication,
                    *owner,
                    scope,
                    *old(self),
                    *final(self),
                ),
                _ => true,
            },
            result matches Ok(refused) ==> refused is Accepted || (enqueue_answers(
                owner.limits(),
                scope,
                frames,
                refused,
            ) && final(self).same_but_settled(*old(self))),
            result matches Err(back) ==> back == buffer && final(self).same_but_settled(*old(self))
                && tried_to_follow(*publication, *owner, scope, *old(self), *final(self)),
    {
        let ghost first = *self;
        let ghost c = publication.channels;
        let mut found = admission_of(owner.needs_terminal_check(scope));
        if found.closed {
            proof {
                assert(follows_from(
                    *publication,
                    *owner,
                    scope,
                    first,
                    first,
                    Pace::none(),
                    None,
                    false,
                ));
                assert(follows(*publication, *owner, scope, first, first, None, false));
            }
            match owner.begin_enqueue(scope, frames) {
                Err(outcome) => {
                    found.answer = Some(OwnerAnswer::Refuses { outcome });
                },
                Ok(ticket) => {
                    // A closed scope does not open again; whatever was there stays.
                    let ghost held = ticket;
                    ticket.release();
                    proof {
                        held.lemma_released(*owner, scope, frames);
                    }
                    found.answer = Some(OwnerAnswer::Admits);
                },
            }
            assert(found_of(found, first, *self, *publication, *owner, scope, buffer, frames));
            return match admission_step(found) {
                AdmissionStep::Answer { outcome } => Ok(outcome),
                _ => Err(buffer),
            };
        }
        let view = match self.reconcile_actual(publication, owner, scope) {
            Ok(view) => view,
            Err(_) => {
                assert(found_of(found, first, *self, *publication, *owner, scope, buffer, frames));
                return Err(buffer);
            },
        };
        let ghost seen = view.seen();
        assert(followed_under(*publication, *owner, scope, first, *self, seen));
        assert(follows(*publication, *owner, scope, first, *self, Some(seen), true));
        let (queued_frames, queued_buffers): (usize, usize) = match self.counts(
            publication.channels,
        ) {
            Some(counts) => counts,
            None => {
                assert(found_of(found, first, *self, *publication, *owner, scope, buffer, frames));
                return Err(buffer);
            },
        };
        found.caught_up = true;
        found.fits = publication.limits.admits(queued_frames, queued_buffers, frames);
        found.appends = self.appends(&buffer);
        before_validation();
        let replaces: bool = admission_step(found) == AdmissionStep::Replace;
        let stands = publication.control.conclude(view, replaces);
        found.stood = Some(stands.is_some());
        assert(publication.control.is_concluded(seen, replaces, stands));
        found.pushable = self.pushable(&buffer, publication.channels);
        let ghost between = *self;
        assert(found.replaces() == replaces);
        assert(found.stands_by(*publication.control, seen));
        assert(found_of(
            found,
            first,
            between,
            *publication,
            *owner,
            scope,
            buffer,
            frames,
        ));
        match admission_step(found) {
            AdmissionStep::Ask => {},
            _ => {
                return Err(buffer);
            },
        }
        match owner.begin_enqueue(scope, frames) {
            Err(outcome) => {
                found.answer = Some(OwnerAnswer::Refuses { outcome });
                assert(found.replaces() == replaces);
                assert(found.stands_by(*publication.control, seen));
                assert(found_of(
                    found,
                    first,
                    between,
                    *publication,
                    *owner,
                    scope,
                    buffer,
                    frames,
                ));
                match admission_step(found) {
                    AdmissionStep::Answer { outcome } => Ok(outcome),
                    _ => Err(buffer),
                }
            },
            Ok(ticket) => {
                found.answer = Some(OwnerAnswer::Admits);
                assert(found.replaces() == replaces);
                assert(found.stands_by(*publication.control, seen));
                assert(found_of(
                    found,
                    first,
                    between,
                    *publication,
                    *owner,
                    scope,
                    buffer,
                    frames,
                ));
                match admission_step(found) {
                    AdmissionStep::Push => {
                        let (now_frames, now_buffers): (usize, usize) = self.push_counted(
                            buffer,
                            publication.channels,
                        );
                        assert(accepted_into(between, *self, buffer, c));
                        let ghost held = ticket;
                        let outcome = ticket.commit(now_frames, now_buffers);
                        proof {
                            held.lemma_committed(*owner, scope, frames, now_frames, now_buffers);
                        }
                        Ok(outcome)
                    },
                    _ => {
                        // Nothing else is left for a buffer that is admitted.
                        ticket.release();
                        Err(buffer)
                    },
                }
            },
        }
    }

    /// What a view of this source is made from, under what was observed: the version, the
    /// next identity, and the frames consumed before it.
    pub fn snapshot_key(&self, observed: GateView) -> (key: (u64, u64, u64))
        ensures
            key == (observed.says().epoch, self.next_source_id, self.settled_consumed),
    {
        (observed.epoch(), self.next_source_id, self.settled_consumed)
    }

    /// Make `destination` a view of the source at a validated actual position. The
    /// answer names the version it belongs to, the next identity, and the frames
    /// consumed before it. A view that could not be validated is emptied.
    pub fn preparation_snapshot(
        &mut self,
        publication: &Publication,
        owner: &RendererOwner,
        scope: PlayerScope,
        destination: &mut PlaybackQueue,
    ) -> (result: Result<(u64, u64, u64), ()>)
        requires
            old(self).well_formed(),
            old(destination).well_formed(),
            publication.channels > 0,
        ensures
            final(self).well_formed(),
            final(destination).well_formed(),
            final(self).same_but_settled(*old(self)),
            settled(old(self).source(), final(self).source()),
            tried_to_follow(*publication, *owner, scope, *old(self), *final(self)),
            match result {
                Ok(key) => exists|seen: GateView| #[trigger]
                    followed_under(*publication, *owner, scope, *old(self), *final(self), seen)
                        && publication.control.is_confirmed(seen, true) && key.0 == seen.says().epoch
                        && final(destination).source() == final(self).source() && key.1
                        == final(self).next_source_id && key.2 == final(self).settled_consumed
                        && final(destination).initialized == final(self).initialized
                        && final(destination).next_source_id == final(self).next_source_id,
                Err(_) => {
                    ||| *final(destination) == *old(destination) && exists|seen: Option<GateView>|
                        #[trigger]
                        follows(*publication, *owner, scope, *old(self), *final(self), seen, false)
                    ||| final(destination).source().order().len() == 0 && exists|seen: GateView|
                        #[trigger]
                        followed_under(*publication, *owner, scope, *old(self), *final(self), seen)
                            && publication.control.is_confirmed(seen, false)
                },
            },
    {
        let view = match self.reconcile_actual(publication, owner, scope) {
            Ok(view) => view,
            Err(_) => {
                return Err(());
            },
        };
        let ghost seen = view.seen();
        assert(followed_under(*publication, *owner, scope, *old(self), *self, seen));
        assert(follows(*publication, *owner, scope, *old(self), *self, Some(seen), true));
        self.copy_source_into(destination);
        if !publication.control.confirm(&view) {
            destination.clear();
            return Err(());
        }
        Ok(self.snapshot_key(view.view()))
    }

    /// Move the timeline. An explicit request moves to the first time at or after
    /// the target at which something can be played; where there is none, the
    /// request stays pending and nothing is invalidated.
    pub fn try_reanchor_prepared<F: FnOnce() -> Option<i64>>(
        &mut self,
        publication: &Publication,
        owner: &RendererOwner,
        scope: PlayerScope,
        target_now: F,
        explicit: bool,
    ) -> (result: Result<Option<i64>, ()>)
        requires
            old(self).well_formed(),
            publication.channels > 0,
            call_requires(target_now, ()),
        ensures
            final(self).well_formed(),
            final(self).next_source_id == old(self).next_source_id,
            final(self).initialized == old(self).initialized,
            final(self).generation == old(self).generation,
            final(self).enqueue_count == old(self).enqueue_count,
            final(self).attached == old(self).attached,
            final(self).pending_end_upper_bound == old(self).pending_end_upper_bound,
            match result {
                Ok(Some(cursor)) => exists|between: PlaybackQueue, target: i64| #[trigger]
                    moved_from(*publication, *owner, scope, *old(self), between)
                        && #[trigger] call_ensures(target_now, (), Some(target)) && settled(
                        old(self).source(),
                        between.source(),
                    ) && Some(cursor) == anchor(between.source(), target, explicit)
                        && reanchored_to(between.source(), target, explicit, cursor)
                        && final(self).source() == (Source {
                        cursor_us: cursor,
                        cursor_remainder: 0,
                        ..between.source()
                    }) && final(self).settled_consumed == between.settled_consumed
                        && !final(self).force_reanchor,
                Ok(None) => {
                    &&& settled(old(self).source(), final(self).source())
                    &&& followed(*publication, *owner, scope, *old(self), *final(self))
                    &&& final(self).force_reanchor == old(self).force_reanchor
                    &&& call_ensures(target_now, (), None) || exists|target: i64| #[trigger]
                        call_ensures(target_now, (), Some(target)) && anchor(
                            final(self).source(),
                            target,
                            explicit,
                        ) is None && explicit && forall|i: int|
                            0 <= i < final(self).source().order().len() ==> (
                            #[trigger] final(self).source().order()[i]).end_us() <= target
                },
                Err(_) => settled(old(self).source(), final(self).source()) && not_moved(
                    *publication,
                    *owner,
                    scope,
                    *old(self),
                    *final(self),
                ) && final(self).force_reanchor == old(self).force_reanchor,
            },
    {
        let view = match self.reconcile_actual(publication, owner, scope) {
            Ok(view) => view,
            Err(_) => {
                return Err(());
            },
        };
        let ghost between = *self;
        let ghost seen = view.seen();
        assert(followed_under(*publication, *owner, scope, *old(self), between, seen));
        let target: i64 = match target_now() {
            Some(target) => target,
            None => {
                return Ok(None);
            },
        };
        proof {
            a_reanchor_goes_to_its_target(self.source(), target, explicit);
        }
        let cursor: i64 = match self.anchored(target, explicit) {
            Some(cursor) => cursor,
            None => {
                return Ok(None);
            },
        };
        if !view.can_commit() {
            return Err(());
        }
        let attempt = publication.control.reanchor(view);
        assert(publication.control.commits(seen, Notice::Reanchored, attempt));
        let committed = match attempt {
            Ok(committed) => committed,
            Err(_) => {
                return Err(());
            },
        };
        self.cursor_us = cursor;
        self.cursor_remainder = 0;
        self.force_reanchor = false;
        proof {
            lemma_same_order(between, *self);
        }
        publication.checkpoint.invalidate_before(committed.epoch());
        assert(moved_from(*publication, *owner, scope, *old(self), between));
        Ok(Some(cursor))
    }

    /// Where an anchor goes.
    fn anchored(&self, target: i64, explicit: bool) -> (cursor: Option<i64>)
        ensures
            cursor == anchor(self.source(), target, explicit),
            !explicit ==> cursor == Some(target),
    {
        if explicit {
            self.first_playable_cursor_at_or_after(target)
        } else {
            Some(target)
        }
    }

    /// Give up the source of a scope, with everything prepared from it. `Err` asks
    /// the caller to try again.
    pub fn clear_with_actual(
        &mut self,
        publication: &Publication,
        owner: &RendererOwner,
        scope: PlayerScope,
    ) -> (result: Result<RendererOperationOutcome, ()>)
        requires
            old(self).well_formed(),
        ensures
            final(self).well_formed(),
            owner.clears(scope, result),
            match result {
                Ok(RendererOperationOutcome::Applied) => final(self).emptied(*old(self)) && exists|
                    view: GateView,
                | #[trigger]
                    publication.control.shows_again(view) && publication.checkpoint.invalidates(
                        view.says().epoch,
                    ),
                _ => *final(self) == *old(self),
            },
    {
        let result = owner.clear(scope);
        match result {
            Ok(RendererOperationOutcome::Applied) => {
                let view = publication.control.view_again();
                publication.checkpoint.invalidate_before(view.epoch());
                self.clear();
            },
            _ => {},
        }
        result
    }

    /// End a scope, and give up its source.
    pub fn teardown_with_actual(&mut self, owner: &RendererOwner, scope: PlayerScope) -> (outcome:
        TerminalOutcome)
        requires
            old(self).well_formed(),
        ensures
            final(self).well_formed(),
            match outcome {
                TerminalOutcome::Won(finalization) => final(self).emptied(*old(self))
                    && finalization.winner == TerminalWinner::Teardown && finalization.ack.says()
                    == (false, false),
                _ => *final(self) == *old(self),
            },
            owner.tears_down(scope, outcome),
    {
        let outcome = owner.teardown(scope);
        match outcome {
            TerminalOutcome::Won(_) => {
                self.clear();
            },
            _ => {},
        }
        outcome
    }

    /// Extend a view of the source with what has been queued since it was made.
    /// The view keeps its own place: nothing that it has prepared is prepared
    /// again. `false` where the view cannot be extended; a new one is made then.
    pub fn refresh_preparation_into(&self, destination: &mut PlaybackQueue) -> (extended: bool)
        requires
            self.well_formed(),
            old(destination).well_formed(),
        ensures
            final(destination).well_formed(),
            extended ==> final(destination).source() == (Source {
                pending: extended_by(
                    old(destination).source().pending,
                    old(destination).next_source_id,
                    self.source().pending,
                    self.source().pending.len() as int,
                ),
                ..old(destination).source()
            }),
            !extended ==> exists|i: int|
                0 <= i < self.source().pending.len() && final(destination).source() == (Source {
                    pending: #[trigger] extended_by(
                        old(destination).source().pending,
                        old(destination).next_source_id,
                        self.source().pending,
                        i,
                    ),
                    ..old(destination).source()
                }) && (self.source().pending[i].id == u64::MAX || total_frames(
                    final(destination).source().pending,
                ) + self.source().pending[i].frames() > usize::MAX),
    {
        let ghost start = *destination;
        let ghost all = self.source().pending;
        let mut i: usize = 0;
        while i < self.queue.len()
            invariant
                i <= self.queue@.len(),
                all == self.source().pending,
                self.well_formed(),
                start == *old(destination),
                destination.well_formed(),
                destination.source() == (Source {
                    pending: extended_by(
                        start.source().pending,
                        start.next_source_id,
                        all,
                        i as int,
                    ),
                    ..start.source()
                }),
                destination.next_source_id == next_after(start.next_source_id, all, i as int),
            decreases self.queue@.len() - i,
        {
            let entry = &self.queue[i];
            assert(all[i as int] == entry@);
            if entry.source_id >= destination.next_source_id {
                let frames: usize = entry.buffer.frames();
                let fits: bool = destination.pending_frames.checked_add(frames).is_some();
                if !fits || entry.source_id == u64::MAX {
                    assert(self.source().pending[i as int].id == u64::MAX || total_frames(
                        destination.source().pending,
                    ) + self.source().pending[i as int].frames() > usize::MAX);
                    return false;
                }
                assert(entry@.frames() == entry.buffer.frame_count());
                destination.place(entry.share());
            }
            i += 1;
        }
        true
    }
}

/// A queue that has followed the device, and whose timeline was moved then: the control
/// gate took a version for it, and positions from before that version do not count.
pub open spec fn moved_from(
    publication: Publication,
    owner: RendererOwner,
    scope: PlayerScope,
    before: PlaybackQueue,
    between: PlaybackQueue,
) -> bool {
    exists|seen: GateView, v: GateView|
        {
            &&& #[trigger] followed_under(publication, owner, scope, before, between, seen)
            &&& #[trigger] publication.control.commits(
                seen,
                Notice::Reanchored,
                Ok::<GateView, GateView>(v),
            )
            &&& publication.checkpoint.invalidates(v.says().epoch)
        }
}

/// A queue whose timeline was not moved: it could not follow the device, no version was
/// left, or the control gate had moved on.
pub open spec fn not_moved(
    publication: Publication,
    owner: RendererOwner,
    scope: PlayerScope,
    before: PlaybackQueue,
    after: PlaybackQueue,
) -> bool {
    ||| exists|seen: Option<GateView>| #[trigger]
        follows(publication, owner, scope, before, after, seen, false)
    ||| exists|seen: GateView| #[trigger]
        followed_under(publication, owner, scope, before, after, seen) && (committed_says(
            seen.says(),
            Notice::Reanchored,
        ) is None || exists|v: GateView| #[trigger]
            publication.control.commits(
                seen,
                Notice::Reanchored,
                Err::<GateView, GateView>(v),
            ))
}

/// Where an anchor goes: an explicit one to the first playable time.
pub open spec fn anchor(s: Source, target: i64, explicit: bool) -> Option<i64> {
    if explicit {
        first_playable(s.order(), target)
    } else {
        Some(target)
    }
}

/// Where a timeline was moved: to the target itself, or, for an explicit request, to the
/// first time in the first buffer of the queue that ends after the target: the target, or the
/// beginning of that buffer where it lies ahead.
pub open spec fn reanchored_to(s: Source, target: i64, explicit: bool, cursor: i64) -> bool {
    if !explicit {
        cursor == target
    } else {
        exists|at: int|
            {
                &&& 0 <= at < s.order().len()
                &&& target < (#[trigger] s.order()[at]).end_us()
                &&& forall|i: int| 0 <= i < at ==> (#[trigger] s.order()[i]).end_us() <= target
                &&& if s.order()[at].timestamp <= target {
                    cursor == target
                } else {
                    cursor == s.order()[at].timestamp
                }
            }
    }
}

/// A correction moves the timeline to its target, whatever is queued. An explicit request
/// moves it to where the first buffer that ends after the target can be played, not before
/// the target; there is no such place exactly where all that is queued has ended by then.
pub proof fn a_reanchor_goes_to_its_target(s: Source, target: i64, explicit: bool)
    ensures
        !explicit ==> anchor(s, target, explicit) == Some(target),
        anchor(s, target, explicit) matches Some(cursor) ==> cursor >= target && reanchored_to(
            s,
            target,
            explicit,
            cursor,
        ),
        anchor(s, target, explicit) is None <==> explicit && forall|i: int|
            0 <= i < s.order().len() ==> (#[trigger] s.order()[i]).end_us() <= target,
{
    let at = the_first_playable_time_is_found(s.order(), target);
    if explicit && anchor(s, target, explicit) is Some {
        assert(target < s.order()[at].end_us());
    }
}

/// An explicit request moves the timeline to the least time at or after the target at which a
/// buffer is playing, of a queue whose buffers follow one another in time and all last.
pub proof fn an_explicit_reanchor_takes_the_least_playable_time(s: Source, target: i64)
    requires
        forall|i: int, j: int|
            0 <= i < j < s.order().len() ==> (#[trigger] s.order()[i]).timestamp <= (
            #[trigger] s.order()[j]).timestamp,
        forall|i: int|
            0 <= i < s.order().len() ==> is_playing_at(
                #[trigger] s.order()[i],
                s.order()[i].timestamp as int,
            ),
    ensures
        anchor(s, target, true) matches Some(time) ==> {
            &&& time >= target
            &&& exists|i: int|
                0 <= i < s.order().len() && is_playing_at(#[trigger] s.order()[i], time as int)
            &&& forall|u: int, i: int|
                target <= u < time && 0 <= i < s.order().len() ==> !#[trigger] is_playing_at(
                    s.order()[i],
                    u,
                )
        },
        anchor(s, target, true) is None ==> forall|u: int, i: int|
            target <= u && 0 <= i < s.order().len() ==> !#[trigger] is_playing_at(s.order()[i], u),
{
    the_first_playable_time_is_the_least(s.order(), target);
}

/// The next identity that a view has not seen, after so many entries.
pub open spec fn next_after(next: u64, all: Seq<Entry>, count: int) -> u64
    decreases count,
{
    if count <= 0 {
        next
    } else {
        let before = next_after(next, all, count - 1);
        if all[count - 1].id >= before {
            (all[count - 1].id + 1) as u64
        } else {
            before
        }
    }
}

/// What is pending in a view, with the entries that it has not seen.
pub open spec fn extended_by(pending: Seq<Entry>, next: u64, all: Seq<Entry>, count: int) -> Seq<
    Entry,
>
    decreases count,
{
    if count <= 0 {
        pending
    } else {
        let before = extended_by(pending, next, all, count - 1);
        if all[count - 1].id >= next_after(next, all, count - 1) {
            pushed(before, all[count - 1])
        } else {
            before
        }
    }
}

} // verus!
