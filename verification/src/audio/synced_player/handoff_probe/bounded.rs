//! A pipe of items of any kind, bounded by credits, and sources prepared whole.
use crate::audio::synced_player::ingress::control::control;
use crate::audio::synced_player::ingress::{CallbackGuard, ControlGate, GateView};
use crate::audio::synced_player::queue::{
    consumed, next_frame, PlaybackQueue, QueuedAudioBuffer, Source,
};
use crate::audio::synced_player::reader::fill_silent;
use crate::audio::synced_player::ring::{can_ring, channel, Inlet, Outlet};
use crate::audio::synced_player::shared::{added, added_to, made_u64, Plain};
use crate::audio::synced_player::transport::{enters_lane, DeviceLane};
use crate::audio::AudioBuffer;
use std::sync::atomic::{AtomicU64, Ordering};
use std::sync::Arc;
use vstd::prelude::*;

verus! {

/// The preparing end: it may have as many items in flight as it has credits.
#[verifier::reject_recursive_types(T)]
pub struct CreditSide<T: Plain> {
    credits: usize,
    ready: Inlet<T>,
    retired: Outlet<T>,
    limit: usize,
}

impl<T: Plain> CreditSide<T> {
    pub closed spec fn free(&self) -> usize {
        self.credits
    }

    pub closed spec fn bound(&self) -> usize {
        self.limit
    }

    pub closed spec fn outgoing(&self) -> Inlet<T> {
        self.ready
    }

    pub closed spec fn incoming(&self) -> Outlet<T> {
        self.retired
    }

    /// There are never more credits than the pipe was made with.
    pub open spec fn well_formed(&self) -> bool {
        self.free() <= self.bound()
    }

    /// How many items may be published now.
    pub fn available_credits(&self) -> (credits: usize)
        ensures
            credits == self.free(),
    {
        self.credits
    }

    /// Hand an item to the device. Without a credit, or without room, it comes
    /// back; that is no answer to whoever handed in the source.
    pub fn publish(&mut self, item: T) -> (result: Result<(), T>)
        requires
            old(self).well_formed(),
        ensures
            final(self).well_formed(),
            final(self).bound() == old(self).bound(),
            final(self).incoming() == old(self).incoming(),
            final(self).outgoing().stream() == old(self).outgoing().stream(),
            old(self).free() == 0 ==> result is Err,
            old(self).free() > 0 && old(self).outgoing().room() > 0 ==> result is Ok,
            match result {
                Ok(_) => final(self).free() == old(self).free() - 1
                    && final(self).outgoing().sent() == old(self).outgoing().sent() + 1
                    && old(self).outgoing().sent() < old(self).outgoing().stream().len()
                    && old(self).outgoing().stream()[old(self).outgoing().sent() as int] == item,
                Err(back) => back == item && final(self).free() == old(self).free()
                    && final(self).outgoing().sent() == old(self).outgoing().sent(),
            },
    {
        if self.credits == 0 {
            return Err(item);
        }
        match self.ready.push(item) {
            Ok(_) => {
                self.credits = self.credits - 1;
                Ok(())
            },
            Err(back) => Err(back),
        }
    }

    /// Take back what the device has returned, and with each item its credit. The
    /// items are freed here, not by the device.
    pub fn reclaim(&mut self) -> (reclaimed: usize)
        requires
            old(self).well_formed(),
        ensures
            final(self).well_formed(),
            final(self).bound() == old(self).bound(),
            final(self).outgoing() == old(self).outgoing(),
            final(self).free() == old(self).free() + reclaimed,
            final(self).incoming().stream() == old(self).incoming().stream(),
            final(self).incoming().taken() == old(self).incoming().taken() + reclaimed,
            final(self).free() < final(self).bound() ==> reclaimed >= old(self).incoming().ready(),
    {
        let mut reclaimed: usize = 0;
        while self.credits < self.limit
            invariant_except_break
                self.retired.ready() + reclaimed >= old(self).retired.ready(),
            invariant
                self.credits <= self.limit,
                self.limit == old(self).limit,
                self.ready == old(self).ready,
                self.credits == old(self).credits + reclaimed,
                self.retired.stream() == old(self).retired.stream(),
                self.retired.taken() == old(self).retired.taken() + reclaimed,
            ensures
                self.credits < self.limit ==> reclaimed >= old(self).retired.ready(),
            decreases self.limit - self.credits,
        {
            match self.retired.pop() {
                Some(_) => {
                    self.credits = self.credits + 1;
                    reclaimed += 1;
                },
                None => {
                    break;
                },
            }
        }
        reclaimed
    }
}

/// Make a pipe for items of any kind. `None` where there cannot be a ring of so many
/// items.
pub fn pipe_for<T: Plain>(limit: usize) -> (ends: Option<(CreditSide<T>, DeviceLane<T>)>)
    ensures
        ends is Some <==> can_ring::<T>(limit),
        ends matches Some((prepare, device)) ==> {
            &&& prepare.well_formed()
            &&& prepare.free() == limit
            &&& prepare.bound() == limit
            &&& prepare.outgoing().room() == limit
            &&& prepare.outgoing().sent() == 0
            &&& prepare.incoming().taken() == 0
            &&& prepare.outgoing().stream() == device.incoming().stream()
            &&& device.outgoing().stream() == prepare.incoming().stream()
            &&& device.outgoing().room() == limit
            &&& device.outgoing().sent() == 0
            &&& device.incoming().taken() == 0
            &&& device.incoming().placed()
            &&& device.at() == 0
            &&& device.held() is None
        },
{
    let (ready_in, ready_out) = channel::<T>(limit)?;
    let (retired_in, retired_out) = channel::<T>(limit)?;
    let prepare = CreditSide { credits: limit, ready: ready_in, retired: retired_out, limit };
    Some((prepare, DeviceLane::over(ready_out, retired_in)))
}

/// One output frame of a source prepared whole: its sample, and how many source
/// frames it stands for.
#[derive(Clone, Copy, Debug, PartialEq, Eq, Structural)]
pub struct PreparedFrame {
    pub sample: i32,
    pub consumed: u64,
}

/// A source prepared whole, for the version that it was prepared in. Its lifetime is let go
/// of where the source is freed.
#[derive(Debug)]
pub struct PreparedSource {
    pub source: u64,
    pub epoch: u64,
    pub frames: Vec<PreparedFrame>,
    pub lifetime: Option<Arc<()>>,
}

/// A source being prepared: where it is, and the sample that was output last.
pub struct Preparing {
    pub source: Source,
    pub last: i32,
}

/// One step: 0 repeats, 1 follows, 2 skips one.
pub open spec fn prepared_step(p: Preparing, step: usize, rate: int) -> (Preparing, PreparedFrame) {
    let between = if step == 2 {
        consumed(p.source, 1, rate)
    } else {
        p.source
    };
    let skipped: u64 = if step == 2 && next_frame(p.source, 1, rate) is Some {
        1
    } else {
        0
    };
    if step == 0 {
        (p, PreparedFrame { sample: p.last, consumed: 0 })
    } else {
        match next_frame(between, 1, rate) {
            Some(frame) => (
                Preparing { source: consumed(between, 1, rate), last: frame[0] },
                PreparedFrame { sample: frame[0], consumed: (skipped + 1) as u64 },
            ),
            None => (
                Preparing { source: consumed(between, 1, rate), last: p.last },
                PreparedFrame { sample: p.last, consumed: skipped },
            ),
        }
    }
}

/// So many steps.
pub open spec fn prepared_after(p: Preparing, steps: Seq<usize>, count: int, rate: int) -> Preparing
    decreases count,
{
    if count <= 0 {
        p
    } else {
        prepared_step(prepared_after(p, steps, count - 1, rate), steps[count - 1], rate).0
    }
}

/// The queue that a lone mono source is prepared from.
pub open spec fn lone_source(buffer: AudioBuffer, source: u64, cursor_us: i64) -> Source {
    Source {
        pending: seq![QueuedAudioBuffer { source_id: source, buffer }@],
        current: None,
        index: 0,
        cursor_us,
        cursor_remainder: 0,
        retired_through: 0,
    }
}

impl PreparedSource {
    /// Prepare a mono source from its beginning.
    pub fn prepare(buffer: &AudioBuffer, source: u64, epoch: u64, steps: &[usize]) -> (prepared:
        PreparedSource)
        requires
            0 < source < u64::MAX,
            buffer.format.sample_rate > 0,
            buffer.format.channels == 1,
            forall|i: int| 0 <= i < steps@.len() ==> #[trigger] steps@[i] <= 2,
        ensures
            prepared.follows(*buffer, source, epoch, steps@, buffer.timestamp),
    {
        PreparedSource::prepare_from_cursor(buffer, source, epoch, steps, buffer.timestamp)
    }

    /// What is prepared is what the source gives, step by step.
    pub open spec fn follows(
        &self,
        buffer: AudioBuffer,
        source: u64,
        epoch: u64,
        steps: Seq<usize>,
        cursor_us: i64,
    ) -> bool {
        let start = Preparing { source: lone_source(buffer, source, cursor_us), last: 0 };
        let rate = buffer.format.sample_rate as int;
        &&& self.source == source
        &&& self.epoch == epoch
        &&& self.lifetime is None
        &&& self.frames@.len() == steps.len()
        &&& forall|i: int|
            0 <= i < steps.len() ==> #[trigger] self.frames@[i] == prepared_step(
                prepared_after(start, steps, i, rate),
                steps[i],
                rate,
            ).1
    }

    /// Prepare a mono source from a cursor on: what lies before it is left out.
    pub fn prepare_from_cursor(
        buffer: &AudioBuffer,
        source: u64,
        epoch: u64,
        steps: &[usize],
        cursor_us: i64,
    ) -> (prepared: PreparedSource)
        requires
            0 < source < u64::MAX,
            buffer.format.sample_rate > 0,
            buffer.format.channels == 1,
            forall|i: int| 0 <= i < steps@.len() ==> #[trigger] steps@[i] <= 2,
        ensures
            prepared.follows(*buffer, source, epoch, steps@, cursor_us),
    {
        let mut queue = PlaybackQueue::new();
        let rate: u32 = buffer.format.sample_rate;
        let entry = QueuedAudioBuffer { source_id: source, buffer: buffer.share() };
        let ghost view = entry@;
        let frames_in: usize = entry.buffer.frames();
        assert(view.frames() == frames_in);
        queue.place(entry);
        queue.cursor_us = cursor_us;
        let ghost start = Preparing { source: lone_source(*buffer, source, cursor_us), last: 0 };
        proof {
            lemma_lone(view);
            assert(queue.source().pending =~= start.source.pending);
            assert(queue.source() == start.source);
        }
        let mut last: i32 = 0;
        let mut frames: Vec<PreparedFrame> = Vec::new();
        let mut i: usize = 0;
        while i < steps.len()
            invariant
                rate > 0,
                rate == buffer.format.sample_rate,
                i <= steps@.len(),
                forall|k: int| 0 <= k < steps@.len() ==> #[trigger] steps@[k] <= 2,
                queue.pending_frames == crate::audio::synced_player::queue::total_frames(
                    queue.source().pending,
                ),
                queue.source() == prepared_after(start, steps@, i as int, rate as int).source,
                last == prepared_after(start, steps@, i as int, rate as int).last,
                frames@.len() == i,
                forall|k: int|
                    0 <= k < i ==> #[trigger] frames@[k] == prepared_step(
                        prepared_after(start, steps@, k, rate as int),
                        steps@[k],
                        rate as int,
                    ).1,
            decreases steps@.len() - i,
        {
            let step: usize = steps[i];
            let mut counted: u64 = 0;
            if step == 2 {
                if queue.consume_next_frame(1, rate, None) {
                    counted = 1;
                }
            }
            if step != 0 {
                let mut sample: [i32; 1] = [last];
                if queue.consume_next_frame(1, rate, Some(&mut sample)) {
                    counted = counted + 1;
                    last = sample[0];
                }
            }
            frames.push(PreparedFrame { sample: last, consumed: counted });
            i += 1;
        }
        PreparedSource { source, epoch, frames, lifetime: None }
    }
}

/// A lone buffer is the only one pending.
proof fn lemma_lone(entry: crate::audio::synced_player::queue::Entry)
    ensures
        crate::audio::synced_player::queue::pushed(Seq::empty(), entry) == seq![entry],
{
    assert(crate::audio::synced_player::queue::pushed(Seq::empty(), entry) =~= seq![entry]);
}

/// The source frames that a run of output frames stands for, as far as they can be
/// counted.
pub open spec fn consumed_by(frames: Seq<PreparedFrame>, from: int, count: int) -> u64
    decreases count,
{
    if count <= 0 {
        0
    } else {
        let before = consumed_by(frames, from, count - 1);
        if before + frames[from + count - 1].consumed <= u64::MAX {
            (before + frames[from + count - 1].consumed) as u64
        } else {
            u64::MAX
        }
    }
}

/// Output prepared frames from an offset on; what they do not fill is silent.
pub fn copy_prepared(prepared: &PreparedSource, offset: usize, output: &mut [i32]) -> (result: (
    usize,
    u64,
))
    ensures
        final(output)@.len() == old(output)@.len(),
        result.0 == if offset >= prepared.frames@.len() {
            0
        } else if prepared.frames@.len() - offset < old(output)@.len() {
            prepared.frames@.len() - offset
        } else {
            old(output)@.len() as int
        },
        result.1 == consumed_by(prepared.frames@, offset as int, result.0 as int),
        forall|i: int|
            0 <= i < result.0 ==> #[trigger] final(output)@[i] == prepared.frames@[offset
                + i].sample,
        forall|i: int| result.0 <= i < final(output)@.len() ==> #[trigger] final(output)@[i] == 0,
{
    let length: usize = output.len();
    let left: usize = if offset >= prepared.frames.len() {
        0
    } else {
        prepared.frames.len() - offset
    };
    let count: usize = if left < length {
        left
    } else {
        length
    };
    let mut sum: u64 = 0;
    let mut i: usize = 0;
    while i < length
        invariant
            i <= length,
            length == output@.len(),
            length == old(output)@.len(),
            count <= length,
            count <= left,
            left > 0 ==> offset + left == prepared.frames@.len(),
            prepared.frames@.len() <= usize::MAX,
            sum == consumed_by(
                prepared.frames@,
                offset as int,
                if i < count {
                    i as int
                } else {
                    count as int
                },
            ),
            forall|k: int|
                0 <= k < i && k < count ==> #[trigger] output@[k] == prepared.frames@[offset
                    + k].sample,
            forall|k: int| count <= k < i ==> #[trigger] output@[k] == 0,
        decreases length - i,
    {
        if i < count {
            let frame = prepared.frames[offset + i];
            output[i] = frame.sample;
            sum = sum.saturating_add(frame.consumed);
        } else {
            output[i] = 0;
        }
        i += 1;
    }
    (count, sum)
}

/// The samples of a run of prepared frames.
pub open spec fn piece(source: PreparedSource, from: int, count: int) -> Seq<i32> {
    Seq::new(count as nat, |k: int| source.frames@[from + k].sample)
}

/// Where the source with this number is begun: the first one where the device had
/// got to, and every other at its beginning.
pub open spec fn begun_at(at: int, number: int) -> int {
    if number == 0 {
        at
    } else {
        0
    }
}

/// What is heard where so many frames are output of each source in turn.
pub open spec fn heard(sources: Seq<PreparedSource>, at: int, counts: Seq<int>) -> Seq<i32>
    decreases counts.len(),
{
    if counts.len() == 0 {
        Seq::empty()
    } else {
        let last = counts.len() - 1;
        heard(sources, at, counts.drop_last()) + piece(
            sources[last],
            begun_at(at, last),
            counts[last],
        )
    }
}

/// Each source has as many frames as are output of it.
pub open spec fn within(sources: Seq<PreparedSource>, at: int, counts: Seq<int>) -> bool {
    &&& counts.len() <= sources.len()
    &&& forall|i: int|
        0 <= i < counts.len() ==> 0 <= #[trigger] counts[i] && (counts[i] > 0 ==> begun_at(at, i)
            + counts[i] <= sources[i].frames@.len())
}

/// The frames that a source gives to an output: those that it has left, and no more than
/// there is room for.
pub open spec fn playable(source: PreparedSource, at: int, room: int) -> int {
    if at >= source.frames@.len() {
        0
    } else if source.frames@.len() - at < room {
        source.frames@.len() - at
    } else {
        room
    }
}

/// What a callback finds of the control gate at a source: whether the source was revoked
/// while it was claimed, whether it won its claim, and the version once it was played.
#[derive(Clone, Copy, Debug, PartialEq, Eq, Structural)]
pub struct HeadFound {
    pub revoked: bool,
    pub won: bool,
    pub epoch: u64,
}

/// Whether the source at the head is played: it has to be claimed and not revoked, or to
/// have an identity and win its claim. It is claimed then.
pub open spec fn head_claimed(claimed: bool, source: u64, revoked: bool, won: bool) -> bool {
    if claimed {
        !revoked
    } else {
        source != 0 && won
    }
}

pub fn head_plays(claimed: bool, source: u64, revoked: bool, won: bool) -> (plays: bool)
    ensures
        plays == head_claimed(claimed, source, revoked, won),
{
    if claimed {
        !revoked
    } else {
        source != 0 && won
    }
}

/// The frames that the source at the head gives.
pub open spec fn head_gives(
    claimed: bool,
    head: PreparedSource,
    revoked: bool,
    won: bool,
    at: int,
    room: int,
) -> int {
    if head_claimed(claimed, head.source, revoked, won) {
        playable(head, at, room)
    } else {
        0
    }
}

/// So many frames are what the source at the head gives, under what was found.
pub open spec fn head_gave(
    claimed: bool,
    head: PreparedSource,
    given: (usize, bool, bool),
    at: usize,
    room: nat,
) -> bool {
    given.0 == head_gives(claimed, head, given.1, given.2, at as int, room as int)
}

/// Whether the source at the head is given back: it is used up, or was prepared for another
/// version than the one that is found and is not claimed.
pub open spec fn head_over(claimed: bool, head: PreparedSource, at: int, epoch: u64) -> bool {
    at >= head.frames@.len() || (!claimed && head.epoch != epoch)
}

pub fn head_ends(claimed: bool, head: &PreparedSource, at: usize, epoch: u64) -> (over: bool)
    ensures
        over == head_over(claimed, *head, at as int, epoch),
{
    at >= head.frames.len() || (!claimed && head.epoch != epoch)
}

/// What a source at the head took from the shared memory and left there. Whether it was
/// revoked is what the control gate showed while it was claimed, and whether it won is what
/// its claim came to. What it consumes is added to the progress; once it is revoked or used
/// up it is released.
pub open spec fn head_exchanged(
    gate: ControlGate,
    progress: AtomicU64,
    claimed: bool,
    head: PreparedSource,
    found: HeadFound,
    at: int,
    count: int,
) -> bool {
    &&& if claimed {
        !found.won && exists|view: GateView| #[trigger]
            gate.shows(view) && found.revoked == view.says().revoked
    } else {
        !found.revoked && if head.source != 0 {
            gate.claims(head.epoch, head.source, found.won)
        } else {
            !found.won
        }
    }
    &&& if head_claimed(claimed, head.source, found.revoked, found.won) {
        &&& added(progress, consumed_by(head.frames@, at, count))
        &&& at + count >= head.frames@.len() ==> gate.releases_current()
    } else {
        found.revoked ==> gate.releases_current()
    }
    &&& exists|view: GateView| #[trigger] gate.shows_again(view) && found.epoch == view.says().epoch
}

/// The frames that are output before a turn.
pub open spec fn given_before(counts: Seq<int>, number: int) -> int
    decreases number,
{
    if number <= 0 {
        0
    } else {
        given_before(counts, number - 1) + counts[number - 1]
    }
}

/// The turns of a callback: at each source that it comes to, what it finds and how many
/// frames it outputs.
pub struct HeadTurns {
    pub counts: Seq<int>,
    pub founds: Seq<HeadFound>,
}

impl HeadTurns {
    /// Whether the source of a turn is claimed once it was played. Only the first one can
    /// have been claimed before.
    pub open spec fn claims(self, sources: Seq<PreparedSource>, claimed: bool, number: int) -> bool {
        let found = self.founds[number];
        head_claimed(claimed && number == 0, sources[number].source, found.revoked, found.won)
    }

    /// Where a turn leaves its source.
    pub open spec fn reaches(self, at: int, number: int) -> int {
        begun_at(at, number) + self.counts[number]
    }

    /// Whether a turn ends with its source over.
    pub open spec fn ends(
        self,
        sources: Seq<PreparedSource>,
        at: int,
        claimed: bool,
        number: int,
    ) -> bool {
        head_over(
            self.claims(sources, claimed, number),
            sources[number],
            self.reaches(at, number),
            self.founds[number].epoch,
        )
    }

    /// A turn is taken while there is room, and outputs what its source gives.
    pub open spec fn plays(
        self,
        sources: Seq<PreparedSource>,
        at: int,
        claimed: bool,
        length: int,
        number: int,
    ) -> bool {
        let given = given_before(self.counts, number);
        &&& given < length
        &&& self.counts[number] == head_gives(
            claimed && number == 0,
            sources[number],
            self.founds[number].revoked,
            self.founds[number].won,
            begun_at(at, number),
            length - given,
        )
    }

    /// Turns as a device takes them: one source after the other while there is room, each
    /// with what it gives, and on to the next only where one is over.
    pub open spec fn taken(
        self,
        sources: Seq<PreparedSource>,
        at: int,
        claimed: bool,
        length: int,
    ) -> bool {
        let turns = self.counts.len();
        &&& self.founds.len() == turns
        &&& within(sources, at, self.counts)
        &&& forall|i: int|
            0 <= i < turns ==> #[trigger] self.plays(sources, at, claimed, length, i)
        &&& forall|i: int|
            0 <= i < turns - 1 ==> #[trigger] self.ends(sources, at, claimed, i)
    }

    /// What the turns took from the shared memory and left there.
    pub open spec fn exchanges(
        self,
        gate: ControlGate,
        progress: AtomicU64,
        sources: Seq<PreparedSource>,
        at: int,
        claimed: bool,
    ) -> bool {
        forall|i: int|
            0 <= i < self.counts.len() ==> head_exchanged(
                gate,
                progress,
                claimed && i == 0,
                sources[i],
                #[trigger] self.founds[i],
                begun_at(at, i),
                self.counts[i],
            )
    }

    /// One turn more.
    pub open spec fn and(self, count: int, found: HeadFound) -> HeadTurns {
        HeadTurns { counts: self.counts.push(count), founds: self.founds.push(found) }
    }

    /// The sources that are over after all turns.
    pub open spec fn retired(self, sources: Seq<PreparedSource>, at: int, claimed: bool) -> int {
        let turns = self.counts.len() as int;
        if turns > 0 && !self.ends(sources, at, claimed, turns - 1) {
            turns - 1
        } else {
            turns
        }
    }
}

/// Where the turns of a callback leave a device: at the first source that is not over, or
/// at the next one. Every source that is over is given back, but for one that may be held.
pub open spec fn leaves(
    before: SourceDevice,
    after: SourceDevice,
    entered: DeviceLane<PreparedSource>,
    turns: HeadTurns,
) -> bool {
    let sources = entered.coming();
    let at = entered.at() as int;
    let count = turns.counts.len() as int;
    let retired = turns.retired(sources, at, before.claimed);
    &&& after.lane.coming() == sources.skip(retired)
    &&& after.lane.at() == if count == 0 {
        at
    } else if retired < count {
        turns.reaches(at, retired)
    } else {
        0
    }
    &&& after.claimed == if count == 0 {
        before.claimed
    } else {
        retired < count && turns.claims(sources, before.claimed, retired)
    }
    &&& entered.held() is None ==> retired == after.lane.outgoing().sent()
        - entered.outgoing().sent() + if after.lane.held() is Some {
        1int
    } else {
        0
    }
    &&& after.lane.held() is Some && entered.held() is None ==> retired > 0 && after.lane.held()
        == Some(sources[retired - 1])
}

/// A callback of a device for sources, from the lane as it was entered: what is heard is
/// what the turns give, and then silence. A turn is left out only where the output is full,
/// a source is not over, or one is held.
pub open spec fn sounds_from(
    before: SourceDevice,
    after: SourceDevice,
    entered: DeviceLane<PreparedSource>,
    budget: usize,
    turns: HeadTurns,
    output: Seq<i32>,
    missing: int,
) -> bool {
    let sources = entered.coming();
    let at = entered.at() as int;
    let count = turns.counts.len() as int;
    let retired = turns.retired(sources, at, before.claimed);
    &&& count <= budget
    &&& turns.taken(sources, at, before.claimed, output.len() as int)
    &&& missing == output.len() - given_before(turns.counts, count)
    &&& output == heard(sources, at, turns.counts) + Seq::new(missing as nat, |k: int| 0i32)
    &&& count < budget ==> missing == 0 || retired < count || after.lane.held() is Some
    &&& leaves(before, after, entered, turns)
}

/// A callback of a device for sources, exactly, from what it found of the control gate.
pub open spec fn sounds(
    gate: ControlGate,
    before: SourceDevice,
    after: SourceDevice,
    output: Seq<i32>,
    missing: int,
) -> bool {
    exists|entered: DeviceLane<PreparedSource>, budget: usize, turns: HeadTurns|
        enters_lane(before.lane, entered, budget) && #[trigger] sounds_from(
            before,
            after,
            entered,
            budget,
            turns,
            output,
            missing,
        ) && turns.exchanges(
            gate,
            *before.progress,
            entered.coming(),
            entered.at() as int,
            before.claimed,
        )
}

/// The frames before a turn depend only on the turns before it.
proof fn lemma_given_before(a: Seq<int>, b: Seq<int>, number: int)
    requires
        0 <= number <= a.len(),
        number <= b.len(),
        forall|i: int| 0 <= i < number ==> a[i] == b[i],
    ensures
        given_before(a, number) == given_before(b, number),
    decreases number,
{
    if number > 0 {
        lemma_given_before(a, b, number - 1);
    }
}

proof fn lemma_turn_taken(
    before: HeadTurns,
    sources: Seq<PreparedSource>,
    at: int,
    claimed: bool,
    length: int,
    count: int,
    found: HeadFound,
)
    requires
        before.taken(sources, at, claimed, length),
        before.counts.len() < sources.len(),
        before.counts.len() > 0 ==> before.ends(sources, at, claimed, before.counts.len() - 1),
        given_before(before.counts, before.counts.len() as int) < length,
        count == head_gives(
            claimed && before.counts.len() == 0,
            sources[before.counts.len() as int],
            found.revoked,
            found.won,
            begun_at(at, before.counts.len() as int),
            length - given_before(before.counts, before.counts.len() as int),
        ),
    ensures
        before.and(count, found).taken(sources, at, claimed, length),
        given_before(before.and(count, found).counts, before.counts.len() as int + 1) == given_before(
            before.counts,
            before.counts.len() as int,
        ) + count,
{
    let number = before.counts.len() as int;
    let after = before.and(count, found);
    assert forall|i: int| 0 <= i <= number implies #[trigger] given_before(after.counts, i)
        == given_before(before.counts, i) by {
        lemma_given_before(after.counts, before.counts, i);
    }
    assert(given_before(after.counts, number) == given_before(before.counts, number));
    assert(given_before(after.counts, number + 1) == given_before(after.counts, number)
        + after.counts[number]);
    assert forall|i: int| 0 <= i < number implies #[trigger] after.ends(sources, at, claimed, i)
        by {
        assert(after.counts[i] == before.counts[i] && after.founds[i] == before.founds[i]);
        assert(before.ends(sources, at, claimed, i));
    }
    assert forall|i: int| 0 <= i < number + 1 implies #[trigger] after.plays(
        sources,
        at,
        claimed,
        length,
        i,
    ) by {
        if i < number {
            assert(before.plays(sources, at, claimed, length, i));
            assert(after.counts[i] == before.counts[i] && after.founds[i] == before.founds[i]);
        }
    }
    assert forall|i: int| 0 <= i < after.counts.len() implies 0 <= #[trigger] after.counts[i] && (
    after.counts[i] > 0 ==> begun_at(at, i) + after.counts[i] <= sources[i].frames@.len()) by {
        if i < number {
            assert(after.counts[i] == before.counts[i]);
        }
    }
}

/// One source more.
proof fn lemma_heard_on(sources: Seq<PreparedSource>, at: int, counts: Seq<int>, count: int)
    ensures
        heard(sources, at, counts.push(count)) == heard(sources, at, counts) + piece(
            sources[counts.len() as int],
            begun_at(at, counts.len() as int),
            count,
        ),
{
    assert(counts.push(count).drop_last() =~= counts);
}

/// Count source frames that were consumed.
fn count_consumed(progress: &AtomicU64, consumed: u64)
    ensures
        added(*progress, consumed),
{
    let before: u64 = progress.fetch_add(consumed, Ordering::Release);
    assert(added_to(*progress, consumed, before));
}

/// The device for sources prepared whole: it claims a source, plays it to its end,
/// and releases it.
pub struct SourceDevice {
    pub lane: DeviceLane<PreparedSource>,
    pub gate: Arc<ControlGate>,
    pub progress: Arc<AtomicU64>,
    pub claimed: bool,
}

impl SourceDevice {
    pub fn new(lane: DeviceLane<PreparedSource>) -> (device: SourceDevice)
        ensures
            device.lane == lane,
            !device.claimed,
            device.gate.begins_with(0),
            made_u64(*device.progress, 0),
    {
        SourceDevice {
            lane,
            gate: Arc::new(ControlGate::default()),
            progress: Arc::new(AtomicU64::new(0)),
            claimed: false,
        }
    }

    /// Render as a callback of its own. `None` where another callback is active.
    pub fn render(&mut self, output: &mut [i32]) -> (missing: Option<usize>)
        requires
            old(self).lane.incoming().placed(),
        ensures
            final(self).lane.incoming().placed(),
            final(output)@.len() == old(output)@.len(),
            exists|previous: u64| #[trigger]
                old(self).gate.is_entered(previous) && missing is None == control(previous).active,
            missing is None ==> *final(self) == *old(self) && final(output)@ == old(output)@,
            missing matches Some(m) ==> sounds(
                *old(self).gate,
                *old(self),
                *final(self),
                final(output)@,
                m as int,
            ),
    {
        let gate = Arc::clone(&self.gate);
        let missing = match gate.begin_callback() {
            Some(callback) => Some(self.render_active(&callback, output)),
            None => None,
        };
        missing
    }

    /// Claim the source at the head, or go on with it, and output from it into what
    /// is silent so far. The answer is how many frames were output, and what was found:
    /// whether the source was revoked, and whether it won its claim.
    fn play_head(&mut self, callback: &CallbackGuard<'_>, output: &mut [i32]) -> (result: (
        usize,
        bool,
        bool,
    ))
        requires
            old(self).lane.held() is None,
            old(self).lane.arrived() > 0,
            forall|i: int| 0 <= i < old(output)@.len() ==> #[trigger] old(output)@[i] == 0,
        ensures
            final(self).gate == old(self).gate,
            final(self).progress == old(self).progress,
            forall|epoch: u64|
                (exists|view: GateView| #[trigger]
                    callback.of().shows_again(view) && epoch == view.says().epoch)
                    ==> #[trigger] head_exchanged(
                    *callback.of(),
                    *old(self).progress,
                    old(self).claimed,
                    old(self).lane.coming()[0],
                    HeadFound { revoked: result.1, won: result.2, epoch },
                    old(self).lane.at() as int,
                    result.0 as int,
                ),
            final(self).lane.incoming() == old(self).lane.incoming(),
            final(self).lane.outgoing() == old(self).lane.outgoing(),
            final(self).lane.held() == old(self).lane.held(),
            final(output)@.len() == old(output)@.len(),
            old(self).lane.coming().len() > 0,
            head_gave(
                old(self).claimed,
                old(self).lane.coming()[0],
                result,
                old(self).lane.at(),
                old(output)@.len(),
            ),
            final(self).claimed == head_claimed(
                old(self).claimed,
                old(self).lane.coming()[0].source,
                result.1,
                result.2,
            ),
            result.0 <= old(output)@.len(),
            final(self).lane.at() == old(self).lane.at() + result.0,
            forall|i: int|
                0 <= i < result.0 ==> #[trigger] final(output)@[i] == old(
                    self,
                ).lane.coming()[0].frames@[old(self).lane.at() + i].sample,
            forall|i: int|
                result.0 <= i < final(output)@.len() ==> #[trigger] final(output)@[i] == 0,
    {
        let offset: usize = self.lane.offset();
        let head = match self.lane.peek() {
            Some(head) => head,
            None => {
                assert(false);
                return (0, false, false);
            },
        };
        let view = callback.view();
        let revoked: bool = self.claimed && view.current_revoked();
        let won: bool = !self.claimed && head.source != 0 && callback.claim(
            head.epoch,
            head.source,
        );
        if !head_plays(self.claimed, head.source, revoked, won) {
            if revoked {
                callback.finish_current();
            }
            self.claimed = false;
            return (0, revoked, won);
        }
        self.claimed = true;
        let (written, consumed): (usize, u64) = copy_prepared(head, offset, output);
        let total: usize = head.frames.len();
        count_consumed(&self.progress, consumed);
        self.lane.advance(written);
        if self.lane.offset() >= total {
            callback.finish_current();
        }
        (written, revoked, won)
    }

    /// Whether the source at the head is used up, or may not be played any more, and the
    /// version that was found.
    fn head_is_over(&self, callback: &CallbackGuard<'_>) -> (result: (bool, u64))
        requires
            self.lane.held() is None,
            self.lane.arrived() > 0,
        ensures
            self.lane.coming().len() > 0,
            result.0 == head_over(
                self.claimed,
                self.lane.coming()[0],
                self.lane.at() as int,
                result.1,
            ),
            exists|view: GateView| #[trigger]
                callback.of().shows_again(view) && result.1 == view.says().epoch,
    {
        let view = callback.view_again();
        let epoch: u64 = view.epoch();
        match self.lane.peek() {
            Some(head) => (head_ends(self.claimed, head, self.lane.offset(), epoch), epoch),
            None => {
                assert(false);
                (false, epoch)
            },
        }
    }

    /// Render within a callback, for the sources that have arrived on entry. The
    /// answer is how many frames are missing.
    pub fn render_active(&mut self, callback: &CallbackGuard<'_>, output: &mut [i32]) -> (missing:
        usize)
        requires
            old(self).lane.incoming().placed(),
        ensures
            final(self).lane.incoming().placed(),
            final(self).lane.incoming().stream() == old(self).lane.incoming().stream(),
            final(output)@.len() == old(output)@.len(),
            missing <= old(output)@.len(),
            final(self).gate == old(self).gate,
            final(self).progress == old(self).progress,
            sounds(*callback.of(), *old(self), *final(self), final(output)@, missing as int),
    {
        let length: usize = output.len();
        let ghost first = *self;
        fill_silent(output);
        let visible: usize = self.lane.enter();
        let ghost entered = self.lane;
        let ghost sources = self.lane.coming();
        let ghost at = self.lane.at() as int;
        let ghost mut turns = HeadTurns { counts: Seq::empty(), founds: Seq::empty() };
        let mut written: usize = 0;
        let mut turn: usize = 0;
        proof {
            assert(output@.take(0) =~= heard(sources, at, turns.counts));
            assert(sources.skip(0) =~= sources);
        }
        while turn < visible && written < length
            invariant_except_break
                turn > 0 ==> turns.ends(sources, at, first.claimed, turn - 1),
                self.lane.held() is None || visible == 0,
                self.lane.arrived() >= visible - turn,
                self.lane.coming() == sources.skip(turn as int),
                self.lane.at() == begun_at(at, turn as int),
                self.claimed == (first.claimed && turn == 0),
                self.lane.outgoing().sent() == entered.outgoing().sent() + turn,
                turn == 0 ==> *self == (SourceDevice { lane: entered, ..first }),
            invariant
                sources == entered.coming(),
                at == entered.at(),
                enters_lane(first.lane, entered, visible),
                entered.incoming().placed(),
                first == *old(self),
                self.gate == first.gate,
                self.progress == first.progress,
                turns.founds.len() == turns.counts.len(),
                turns.exchanges(*callback.of(), *first.progress, sources, at, first.claimed),
                turns.counts.len() == turn,
                turns.taken(sources, at, first.claimed, length as int),
                written == given_before(turns.counts, turn as int),
                output@.take(written as int) == heard(sources, at, turns.counts),
                turn <= visible,
                written <= length,
                length == output@.len(),
                length == old(output)@.len(),
                self.lane.incoming().placed(),
                self.lane.incoming().stream() == old(self).lane.incoming().stream(),
                forall|i: int| written <= i < length ==> #[trigger] output@[i] == 0,
            ensures
                turn < visible ==> written == length || turns.retired(sources, at, first.claimed)
                    < turn || self.lane.held() is Some,
                leaves(first, *self, entered, turns),
            decreases visible - turn,
        {
            let ghost number = turn as int;
            let ghost from = self.lane.at() as int;
            let ghost before = turns;
            assert(self.lane.coming().len() > 0);
            assert(self.lane.coming()[0] == sources[number]);
            let (earlier, rest) = output.split_at_mut(written);
            let (played, revoked, won): (usize, bool, bool) = self.play_head(callback, rest);
            let (over, epoch): (bool, u64) = self.head_is_over(callback);
            proof {
                turns = before.and(played as int, HeadFound { revoked, won, epoch });
                lemma_turn_taken(
                    before,
                    sources,
                    at,
                    first.claimed,
                    length as int,
                    played as int,
                    HeadFound { revoked, won, epoch },
                );
                assert(turns.ends(sources, at, first.claimed, number) == over);
                assert forall|i: int| 0 <= i < turns.counts.len() implies head_exchanged(
                    *callback.of(),
                    *first.progress,
                    first.claimed && i == 0,
                    sources[i],
                    #[trigger] turns.founds[i],
                    begun_at(at, i),
                    turns.counts[i],
                ) by {
                    if i < number {
                        assert(turns.founds[i] == before.founds[i]);
                        assert(turns.counts[i] == before.counts[i]);
                    }
                }
                assert forall|i: int| written + played <= i < length implies #[trigger] output@[i]
                    == 0 by {
                    assert(output@[i] == rest@[i - written]);
                }
                lemma_heard_on(sources, at, before.counts, played as int);
                assert(output@.take(written + played) =~= heard(sources, at, before.counts) + piece(
                    sources[number],
                    from,
                    played as int,
                ));
            }
            written = written + played;
            turn += 1;
            if !over {
                break;
            }
            self.claimed = false;
            if !self.lane.retire() {
                assert(sources.skip(number).skip(1) =~= sources.skip(turn as int));
                break;
            }
            assert(sources.skip(number).skip(1) =~= sources.skip(turn as int));
        }
        proof {
            assert(output@ =~= heard(sources, at, turns.counts) + Seq::new(
                (length - written) as nat,
                |k: int| 0i32,
            ));
            assert(sounds_from(
                first,
                *self,
                entered,
                visible,
                turns,
                output@,
                length - written,
            ));
        }
        length - written
    }
}

} // verus!
