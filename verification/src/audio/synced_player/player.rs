//! Building a player: the device's side and the worker's side of one scope.
use super::allocation::{allocation_budget, player_parts, total_of, Capacities};
use super::device::{Device, Diagnostics, OutputState};
use super::handoff_probe::timeline::feedback::{ValidatedPlanMailbox, ValidatedPlanReader};
use super::queue::{PlaybackQueue, QueuedAudioBuffer};
use super::reader::{Reader, ReaderState};
use super::ring::{ring, Inlet, Outlet};
use super::runtime::{TimingMailbox, OBSERVATIONS, WINDOWS};
use super::source::Publication;
use super::transport::{
    fresh, pipe, piped, plan_of, planned, representable, Allocation, DeviceSide, PrepareSide,
};
use super::worker::{DeviceEvent, Worker, WorkerState};
use crate::audio::owner::{OwnerState, RendererHealth};
use crate::audio::sync_correction::{steady, CadenceCounters};
use crate::audio::{
    PlayerScope, RendererOperationOutcome, RendererOwner, RendererQueueLimits,
};
use std::collections::VecDeque;
use std::sync::Arc;
use vstd::prelude::*;

verus! {

/// Why a player cannot be built.
#[derive(Clone, Copy, Debug, PartialEq, Eq, Structural)]
pub enum BuildError {
    /// The scope has been replaced.
    StaleScope,
    /// What it would allocate cannot be told.
    TooLarge,
    /// There is nothing to play in.
    InvalidFormat,
}

/// `VecDeque::capacity`: what the queue can hold without allocating again, which
/// is at least what it holds. How much more is the allocator's choice.
#[verifier::external_body]
fn reserved_entries(queue: &VecDeque<QueuedAudioBuffer>) -> (capacity: usize)
    ensures
        capacity >= queue@.len(),
{
    queue.capacity()
}

/// This is what a queue was said to hold without allocating again.
pub closed spec fn holds_entries(queue: PlaybackQueue, entries: usize) -> bool {
    call_ensures(reserved_entries, (&queue.queue,), entries)
}

/// This is what the last frame of a reader was said to have room for.
pub closed spec fn holds_last(reader: Reader, last: usize) -> bool {
    call_ensures(Reader::last_capacity, (&reader,), last)
}

/// A reader that has rendered nothing yet.
pub open spec fn is_new(reader: ReaderState, channels: usize) -> bool {
    reader == (ReaderState {
        last: Seq::new(channels as nat, |i: int| 0i32),
        position: None,
        minimum_epoch: 0,
        timeline: 0,
        schedule: steady(),
        counters: CadenceCounters { insert: 0, drop: 0 },
        origin: None,
    })
}

/// What the allocator gave to a player: to the canonical queue, to the view of the source,
/// to the ring of reports and to the last frame.
pub open spec fn given(
    queue: PlaybackQueue,
    channels: usize,
    canonical: usize,
    private: usize,
    events: usize,
    last: usize,
) -> bool {
    &&& holds_entries(queue, canonical)
    &&& exists|view: PlaybackQueue| #[trigger]
        holds_entries(view, private) && view.source().order().len() == 0
    &&& events == OBSERVATIONS
    &&& exists|reader: Reader| #[trigger]
        holds_last(reader, last) && reader@.channels() == channels
}

/// The room that a queue still needs for every buffer that may be queued.
pub fn room_wanted(queued: usize, hard_buffers: usize) -> (room: usize)
    ensures
        room == if hard_buffers > queued {
            hard_buffers - queued
        } else {
            0
        },
        queued + room >= hard_buffers,
{
    if hard_buffers > queued {
        hard_buffers - queued
    } else {
        0
    }
}

/// The frames of one block: a fiftieth of a second, at least one, and no more than
/// one buffer may have.
pub open spec fn block(sample_rate: u32, max_chunk_frames: usize) -> int {
    let fiftieth = sample_rate as int / 50;
    let some = if fiftieth < 1 {
        1
    } else {
        fiftieth
    };
    if some < max_chunk_frames {
        some
    } else {
        max_chunk_frames as int
    }
}

pub fn block_frames(sample_rate: u32, max_chunk_frames: usize) -> (frames: usize)
    ensures
        frames == block(sample_rate, max_chunk_frames),
{
    let fiftieth: usize = (sample_rate / 50) as usize;
    let some: usize = if fiftieth < 1 {
        1
    } else {
        fiftieth
    };
    if some < max_chunk_frames {
        some
    } else {
        max_chunk_frames
    }
}

/// What building a player comes to, before anything is made: the frames and samples of
/// one block, the account of its pipe, and the bytes of all its parts.
#[derive(Clone, Copy, Debug, PartialEq, Eq, Structural)]
pub struct Plan {
    pub frames: usize,
    pub samples: usize,
    pub pipe: Allocation,
    pub bytes: usize,
}

/// The capacities of a player as they are asked for.
pub open spec fn planned_capacities(
    limits: RendererQueueLimits,
    channels: usize,
    samples: usize,
) -> Capacities {
    Capacities {
        canonical: limits.buffers(),
        private: limits.buffers(),
        events: OBSERVATIONS,
        last: channels,
        samples,
        output: samples,
    }
}

/// The plan of a player, or why there is none: its block has too many samples, a pipe of
/// such blocks cannot be asked for, or its bytes cannot be told.
pub open spec fn player_plan(
    limits: RendererQueueLimits,
    sample_rate: u32,
    channels: usize,
) -> Result<Plan, BuildError> {
    let frames = block(sample_rate, limits.chunk()) as usize;
    let samples = (frames * channels) as usize;
    if frames * channels > usize::MAX {
        Err(BuildError::TooLarge)
    } else {
        match plan_of(WINDOWS, frames, channels) {
            None => Err(BuildError::InvalidFormat),
            Some(pipe) => match total_of(
                player_parts(limits, channels, pipe, planned_capacities(limits, channels, samples)),
            ) {
                None => Err(BuildError::TooLarge),
                Some(bytes) => Ok(Plan { frames, samples, pipe, bytes }),
            },
        }
    }
}

pub fn plan_player(limits: RendererQueueLimits, sample_rate: u32, channels: usize) -> (plan: Result<
    Plan,
    BuildError,
>)
    ensures
        plan == player_plan(limits, sample_rate, channels),
        plan is Ok <==> {
            &&& block(sample_rate, limits.chunk()) * channels <= usize::MAX
            &&& representable(
                WINDOWS,
                block(sample_rate, limits.chunk()) as usize,
                channels,
            )
            &&& total_of(
                player_parts(
                    limits,
                    channels,
                    plan_of(WINDOWS, block(sample_rate, limits.chunk()) as usize, channels)->0,
                    planned_capacities(
                        limits,
                        channels,
                        (block(sample_rate, limits.chunk()) * channels) as usize,
                    ),
                ),
            ) is Some
        },
{
    let frames: usize = block_frames(sample_rate, limits.max_chunk_frames());
    let samples: usize = match frames.checked_mul(channels) {
        Some(samples) => samples,
        None => {
            return Err(BuildError::TooLarge);
        },
    };
    let pipe = match planned(WINDOWS, frames, channels) {
        Some(pipe) => pipe,
        None => {
            return Err(BuildError::InvalidFormat);
        },
    };
    let bytes: Option<usize> = allocation_budget(
        limits,
        channels,
        pipe,
        Capacities {
            canonical: limits.hard_buffers(),
            private: limits.hard_buffers(),
            events: OBSERVATIONS,
            last: channels,
            samples,
            output: samples,
        },
    );
    match bytes {
        Some(bytes) => Ok(Plan { frames, samples, pipe, bytes }),
        None => Err(BuildError::TooLarge),
    }
}

/// The limits of a player and its plan, from what the owner says of its scope. A stale
/// scope comes before everything else.
pub fn plan_for(
    health: Result<RendererHealth, RendererOperationOutcome>,
    sample_rate: u32,
    channels: usize,
) -> (plan: Result<(RendererQueueLimits, Plan), BuildError>)
    ensures
        plan == match health {
            Ok(h) => match player_plan(h.of().limits, sample_rate, channels) {
                Ok(plan) => Ok((h.of().limits, plan)),
                Err(error) => Err(error),
            },
            Err(_) => Err::<(RendererQueueLimits, Plan), BuildError>(BuildError::StaleScope),
        },
{
    match health {
        Ok(health) => {
            let limits = health.limits();
            match plan_player(limits, sample_rate, channels) {
                Ok(plan) => Ok((limits, plan)),
                Err(error) => Err(error),
            }
        },
        Err(_) => Err(BuildError::StaleScope),
    }
}

/// A built player. `samples` is the length of one block; `planned_bytes` and
/// `allocated_bytes` are what was planned and what is allocated; `canonical_entries` and
/// `private_entries` are what the two queues can hold without allocating again.
pub struct Player {
    pub device: Device,
    pub worker: Worker,
    pub events: Outlet<DeviceEvent>,
    pub samples: usize,
    pub planned_bytes: usize,
    pub allocated_bytes: usize,
    pub canonical_entries: usize,
    pub private_entries: usize,
}

/// A player as it is built from a plan. A rate of no frames a second has nothing to play;
/// the worker's turns are for every other one.
pub open spec fn built_as(
    player: Player,
    limits: RendererQueueLimits,
    plan: Plan,
    sample_rate: u32,
    channels: usize,
    scope: PlayerScope,
    delay_us: u64,
) -> bool {
    &&& fresh(player.worker.producer, player.device.pipe, WINDOWS, plan.frames, channels)
    &&& player.device.well_formed()
    &&& sample_rate > 0 ==> player.worker.well_formed()
    &&& player.device.reader@.channels() == channels
    &&& player.device.state == (OutputState {
        started: false,
        minimum_epoch: 0,
        generation: None,
        floor_ns: None,
        last_ns: None,
    })
    &&& player.device.cached_timing is None
    &&& player.device.events.stream() == player.events.stream()
    &&& player.device.publication == player.worker.publication
    &&& player.device.diagnostics.sample_rate == sample_rate
    &&& player.worker.publication.channels == channels
    &&& player.worker.publication.limits == limits
    &&& player.worker.channels == channels
    &&& player.worker.sample_rate == sample_rate
    &&& player.worker.scope == scope
    &&& player.worker.state.applied_delay_us == delay_us
    &&& player.worker.state.snapshot is None
    &&& !player.worker.state.pending_window
    &&& player.worker.private.source().order().len() == 0
    &&& player.samples == plan.samples
    &&& player.planned_bytes == plan.bytes
    &&& player.canonical_entries >= limits.buffers()
    &&& player.private_entries >= limits.buffers()
}

/// What is allocated for a player, from what the allocator gave.
pub open spec fn allocated(
    limits: RendererQueueLimits,
    plan: Plan,
    channels: usize,
    pipe: Allocation,
    canonical: usize,
    private: usize,
    events: usize,
    last: usize,
) -> Option<usize> {
    total_of(
        player_parts(
            limits,
            channels,
            pipe,
            Capacities {
                canonical,
                private,
                events,
                last,
                samples: plan.samples,
                output: plan.samples,
            },
        ),
    )
}

/// How putting a player together ends once its pipe is made and its scope is shared: it is
/// built, unless the allocator gave so much that it cannot be told, or less than was asked
/// for.
pub open spec fn ends_as(
    player: Result<Player, BuildError>,
    limits: RendererQueueLimits,
    plan: Plan,
    channels: usize,
    pipe: Allocation,
    canonical: usize,
    private: usize,
    events: usize,
    last: usize,
) -> bool {
    match allocated(limits, plan, channels, pipe, canonical, private, events, last) {
        Some(bytes) => if canonical >= limits.buffers() && private >= limits.buffers() {
            player matches Ok(p) && p.allocated_bytes == bytes && p.canonical_entries == canonical
                && p.private_entries == private
        } else {
            player == Err::<Player, BuildError>(BuildError::TooLarge)
        },
        None => player == Err::<Player, BuildError>(BuildError::TooLarge),
    }
}

/// Put a player together from all of its parts, and from what the allocator gave them.
pub fn put_together(
    limits: RendererQueueLimits,
    plan: Plan,
    ends: (PrepareSide, DeviceSide),
    publication: Arc<Publication>,
    private: PlaybackQueue,
    reader: Reader,
    events: (Inlet<DeviceEvent>, Outlet<DeviceEvent>),
    sample_rate: u32,
    channels: usize,
    owner: &RendererOwner,
    scope: PlayerScope,
    delay_us: u64,
    canonical_entries: usize,
    private_entries: usize,
    events_capacity: usize,
    last_capacity: usize,
) -> (player: Result<Player, BuildError>)
    requires
        player_plan(limits, sample_rate, channels) == Ok::<Plan, BuildError>(plan),
        fresh(ends.0, ends.1, WINDOWS, plan.frames, channels),
        publication.channels == channels,
        publication.limits == limits,
        private.well_formed(),
        private.source().order().len() == 0,
        is_new(reader@, channels),
        events.0.stream() == events.1.stream(),
    ensures
        ends_as(
            player,
            limits,
            plan,
            channels,
            ends.0.account(),
            canonical_entries,
            private_entries,
            events_capacity,
            last_capacity,
        ),
        player matches Ok(p) ==> {
            &&& built_as(p, limits, plan, sample_rate, channels, scope, delay_us)
            &&& (p.worker.producer, p.device.pipe) == ends
            &&& p.worker.publication == publication
            &&& p.worker.private == private
            &&& p.worker.owner == *owner
            &&& p.device.reader == reader
            &&& (p.device.events, p.events) == events
            &&& p.device.timing.is_fresh()
            &&& p.device.plans.is_fresh()
        },
{
    let allocated_bytes: Option<usize> = allocation_budget(
        limits,
        channels,
        ends.0.allocation(),
        Capacities {
            canonical: canonical_entries,
            private: private_entries,
            events: events_capacity,
            last: last_capacity,
            samples: plan.samples,
            output: plan.samples,
        },
    );
    let roomy: bool = canonical_entries >= limits.hard_buffers() && private_entries
        >= limits.hard_buffers();
    let allocated_bytes: usize = match allocated_bytes {
        Some(bytes) if roomy => bytes,
        _ => {
            return Err(BuildError::TooLarge);
        },
    };
    let (producer, lane) = ends;
    let (events_in, events_out) = events;
    let device = Device {
        publication: Arc::clone(&publication),
        pipe: lane,
        reader,
        timing: Arc::new(TimingMailbox::new()),
        cached_timing: None,
        plans: Arc::new(ValidatedPlanMailbox::default()),
        plan_reader: ValidatedPlanReader::default(),
        events: events_in,
        state: OutputState::new(),
        diagnostics: Diagnostics::of_rate(sample_rate),
    };
    let worker = Worker {
        state: WorkerState::new(delay_us),
        private,
        producer,
        publication,
        owner: owner.clone(),
        scope,
        sample_rate,
        channels,
    };
    Ok(
        Player {
            device,
            worker,
            events: events_out,
            samples: plan.samples,
            planned_bytes: plan.bytes,
            allocated_bytes,
            canonical_entries,
            private_entries,
        },
    )
}

/// Put a player together from its plan, the two ends of its pipe, and what it shares with
/// its scope. The canonical queue is attached to that, and room is reserved in it for every
/// buffer that may be queued.
pub fn assemble(
    queue: &mut PlaybackQueue,
    limits: RendererQueueLimits,
    plan: Plan,
    ends: Option<(PrepareSide, DeviceSide)>,
    publication: Result<Arc<Publication>, RendererOperationOutcome>,
    sample_rate: u32,
    channels: usize,
    owner: &RendererOwner,
    scope: PlayerScope,
    delay_us: u64,
) -> (player: Result<Player, BuildError>)
    requires
        old(queue).well_formed(),
        !old(queue).attached,
        player_plan(limits, sample_rate, channels) == Ok::<Plan, BuildError>(plan),
        ends matches Some(e) ==> fresh(e.0, e.1, WINDOWS, plan.frames, channels),
        publication matches Ok(p) ==> p.channels == channels && p.limits == limits,
    ensures
        final(queue).well_formed(),
        final(queue).source() == old(queue).source(),
        final(queue).next_source_id == old(queue).next_source_id,
        ends is None ==> player == Err::<Player, BuildError>(BuildError::InvalidFormat)
            && *final(queue) == *old(queue),
        ends is Some && publication is Err ==> player == Err::<Player, BuildError>(
            BuildError::StaleScope,
        ) && *final(queue) == *old(queue),
        ends matches Some(e) ==> publication is Ok ==> final(queue).attached && exists|
            canonical: usize,
            private: usize,
            events: usize,
            last: usize,
        | #[trigger]
            ends_as(
                player,
                limits,
                plan,
                channels,
                e.0.account(),
                canonical,
                private,
                events,
                last,
            ) && given(*final(queue), channels, canonical, private, events, last),
        player matches Ok(p) ==> built_as(
            p,
            limits,
            plan,
            sample_rate,
            channels,
            scope,
            delay_us,
        ) && p.worker.owner == *owner && ends == Some((p.worker.producer, p.device.pipe))
            && publication == Ok::<
            Arc<Publication>,
            RendererOperationOutcome,
        >(p.worker.publication),
{
    let (producer, lane) = match ends {
        Some(ends) => ends,
        None => {
            return Err(BuildError::InvalidFormat);
        },
    };
    let publication = match publication {
        Ok(publication) => publication,
        Err(_) => {
            return Err(BuildError::StaleScope);
        },
    };
    let room: usize = room_wanted(queue.queue.len(), limits.hard_buffers());
    let ghost before = *queue;
    queue.queue.reserve(room);
    queue.attach_publication(&publication);
    proof {
        super::queue::lemma_same_order(before, *queue);
    }
    let mut private = PlaybackQueue::new();
    private.queue.reserve(room_wanted(0, limits.hard_buffers()));
    let events = ring::<DeviceEvent>(OBSERVATIONS);
    let reader = Reader::new(channels);
    let canonical_entries: usize = reserved_entries(&queue.queue);
    let private_entries: usize = reserved_entries(&private.queue);
    let events_capacity: usize = events.0.capacity();
    let last_capacity: usize = reader.last_capacity();
    proof {
        assert(holds_entries(*queue, canonical_entries));
        assert(holds_entries(private, private_entries));
        assert(holds_last(reader, last_capacity));
        assert(given(
            *queue,
            channels,
            canonical_entries,
            private_entries,
            events_capacity,
            last_capacity,
        ));
    }
    put_together(
        limits,
        plan,
        (producer, lane),
        publication,
        private,
        reader,
        events,
        sample_rate,
        channels,
        owner,
        scope,
        delay_us,
        canonical_entries,
        private_entries,
        events_capacity,
        last_capacity,
    )
}

/// How building a player ends once its pipe is made, from what the allocator gave.
pub open spec fn built_from(
    player: Result<Player, BuildError>,
    queue: PlaybackQueue,
    limits: RendererQueueLimits,
    plan: Plan,
    channels: usize,
    ends: Option<(PrepareSide, DeviceSide)>,
    canonical: usize,
    private: usize,
    events: usize,
    last: usize,
) -> bool {
    &&& exists|free_capacity: usize, reserved: Seq<(usize, usize)>| #[trigger]
        piped(WINDOWS, plan.frames, channels, free_capacity, reserved, ends)
    &&& ends matches Some(e) && ends_as(
        player,
        limits,
        plan,
        channels,
        e.0.account(),
        canonical,
        private,
        events,
        last,
    )
    &&& given(queue, channels, canonical, private, events, last)
}

pub open spec fn built_within(
    player: Result<Player, BuildError>,
    queue: PlaybackQueue,
    limits: RendererQueueLimits,
    plan: Plan,
    channels: usize,
) -> bool {
    exists|
        ends: Option<(PrepareSide, DeviceSide)>,
        canonical: usize,
        private: usize,
        events: usize,
        last: usize,
    | #[trigger]
        built_from(
            player,
            queue,
            limits,
            plan,
            channels,
            ends,
            canonical,
            private,
            events,
            last,
        )
}

/// Build the two sides of a player for a scope. The canonical queue is attached to
/// what they share, and room is reserved in it for every buffer that may be
/// queued. Whether the scope is stale is the owner's to say; otherwise a player that can be
/// planned is built, as far as the allocator goes along.
pub fn build(
    queue: &mut PlaybackQueue,
    sample_rate: u32,
    channels: usize,
    owner: &RendererOwner,
    scope: PlayerScope,
    delay_us: u64,
) -> (player: Result<Player, BuildError>)
    requires
        old(queue).well_formed(),
        !old(queue).attached,
    ensures
        final(queue).well_formed(),
        final(queue).source() == old(queue).source(),
        final(queue).next_source_id == old(queue).next_source_id,
        player matches Err(error) && error is StaleScope ==> *final(queue) == *old(queue),
        player_plan(owner.limits(), sample_rate, channels) matches Err(error) ==> (player == Err::<
            Player,
            BuildError,
        >(error) || player == Err::<Player, BuildError>(BuildError::StaleScope)) && *final(queue)
            == *old(queue),
        player matches Err(BuildError::StaleScope) ==> exists|found: OwnerState| #[trigger]
            owner.turns(found, found) && found.book.id != scope.id,
        player_plan(owner.limits(), sample_rate, channels) matches Ok(plan) ==> match player {
            Ok(p) => final(queue).attached && built_as(
                p,
                owner.limits(),
                plan,
                sample_rate,
                channels,
                scope,
                delay_us,
            ) && p.worker.owner == *owner && built_within(
                player,
                *final(queue),
                owner.limits(),
                plan,
                channels,
            ),
            Err(BuildError::StaleScope) => *final(queue) == *old(queue),
            Err(BuildError::InvalidFormat) => *final(queue) == *old(queue) && exists|
                free_capacity: usize,
                reserved: Seq<(usize, usize)>,
            | #[trigger]
                piped(WINDOWS, plan.frames, channels, free_capacity, reserved, None),
            Err(BuildError::TooLarge) => final(queue).attached && built_within(
                player,
                *final(queue),
                owner.limits(),
                plan,
                channels,
            ),
        },
{
    let (limits, plan): (RendererQueueLimits, Plan) = match plan_for(
        owner.health(scope),
        sample_rate,
        channels,
    ) {
        Ok(planned) => planned,
        Err(error) => {
            return Err(error);
        },
    };
    let ends = pipe(WINDOWS, plan.frames, channels);
    let ghost made = ends;
    let publication = Publication::new(owner, scope, channels, limits);
    let player = assemble(
        queue,
        limits,
        plan,
        ends,
        publication,
        sample_rate,
        channels,
        owner,
        scope,
        delay_us,
    );
    proof {
        if made is Some && publication is Ok {
            let e = made->0;
            let (canonical, private, events, last) = choose|
                canonical: usize,
                private: usize,
                events: usize,
                last: usize,
            | #[trigger]
                ends_as(
                    player,
                    limits,
                    plan,
                    channels,
                    e.0.account(),
                    canonical,
                    private,
                    events,
                    last,
                ) && given(*queue, channels, canonical, private, events, last);
            assert(built_from(
                player,
                *queue,
                limits,
                plan,
                channels,
                made,
                canonical,
                private,
                events,
                last,
            ));
        }
    }
    player
}

} // verus!
