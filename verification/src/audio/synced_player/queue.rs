//! The source queue: timestamped buffers in playback order, and the cursor that
//! moves through them one frame at a time.
use crate::audio::{AudioBuffer, Codec};
use std::collections::VecDeque;
use vstd::prelude::*;

verus! {

pub const MICROS_PER_SECOND: i64 = 1_000_000;

/// A queued buffer, seen as what it plays and how that was coded.
pub struct Entry {
    pub id: u64,
    pub timestamp: i64,
    pub samples: Seq<i32>,
    pub channels: int,
    pub rate: int,
    pub codec: Codec,
    pub bit_depth: u8,
    pub header: Option<Seq<u8>>,
}

/// The time that a number of frames lasts, rounded down.
pub open spec fn duration_us(frames: int, rate: int) -> int {
    if rate == 0 {
        0
    } else {
        frames * 1_000_000 / rate
    }
}

impl Entry {
    pub open spec fn frames(self) -> int {
        if self.channels <= 0 {
            0
        } else {
            self.samples.len() as int / self.channels
        }
    }

    pub open spec fn end_us(self) -> int {
        self.timestamp + duration_us(self.frames(), self.rate)
    }

    /// Whether two buffers claim the same time.
    pub open spec fn overlaps(self, other: Entry) -> bool {
        self.timestamp < other.end_us() && other.timestamp < self.end_us()
    }
}

/// A buffer in the queue, under the identity that it got on entry.
#[derive(Debug)]
pub struct QueuedAudioBuffer {
    pub source_id: u64,
    pub buffer: AudioBuffer,
}

impl View for QueuedAudioBuffer {
    type V = Entry;

    open spec fn view(&self) -> Entry {
        Entry {
            id: self.source_id,
            timestamp: self.buffer.timestamp,
            samples: self.buffer.samples@,
            channels: self.buffer.format.channels as int,
            rate: self.buffer.format.sample_rate as int,
            codec: self.buffer.format.codec,
            bit_depth: self.buffer.format.bit_depth,
            header: match self.buffer.format.codec_header {
                Some(header) => Some(header@),
                None => None,
            },
        }
    }
}

impl QueuedAudioBuffer {
    fn end_us(&self) -> (end: i128)
        ensures
            end == self@.end_us(),
    {
        let frames: usize = self.buffer.frames();
        let rate: u32 = self.buffer.format.sample_rate;
        let start: i128 = self.buffer.timestamp as i128;
        if rate == 0 {
            start
        } else {
            proof {
                assert(0 <= frames * 1_000_000 <= usize::MAX * 1_000_000) by (nonlinear_arith)
                    requires
                        0 <= frames <= usize::MAX,
                ;
                lemma_div_bound(frames * 1_000_000, rate as int);
            }
            let lasts: i128 = (frames as i128 * 1_000_000) / (rate as i128);
            start + lasts
        }
    }

    /// The same queued buffer; the samples stay shared.
    pub(crate) fn share(&self) -> (copy: QueuedAudioBuffer)
        ensures
            copy@ == self@,
    {
        QueuedAudioBuffer { source_id: self.source_id, buffer: self.buffer.share() }
    }
}

pub(crate) proof fn lemma_div_bound(a: int, b: int)
    requires
        a >= 0,
        b > 0,
    ensures
        0 <= a / b <= a,
{
    assert(0 <= a / b <= a) by (nonlinear_arith)
        requires
            a >= 0,
            b > 0,
    ;
}

/// What a queue plays, in order.
pub open spec fn entries(queue: Seq<QueuedAudioBuffer>) -> Seq<Entry> {
    Seq::new(queue.len(), |i: int| queue[i]@)
}

/// All frames of a sequence of buffers.
pub open spec fn total_frames(pending: Seq<Entry>) -> int
    decreases pending.len(),
{
    if pending.len() == 0 {
        0
    } else {
        pending[0].frames() + total_frames(pending.skip(1))
    }
}

/// Where a buffer of this timestamp belongs: behind the last one that is not
/// later.
pub open spec fn slot(pending: Seq<Entry>, timestamp: i64) -> int
    decreases pending.len(),
{
    if pending.len() == 0 || pending.last().timestamp <= timestamp {
        pending.len() as int
    } else {
        slot(pending.drop_last(), timestamp)
    }
}

/// The buffers that a new one leaves in place: those it does not overlap.
pub open spec fn kept(pending: Seq<Entry>, new: Entry) -> Seq<Entry>
    decreases pending.len(),
{
    if pending.len() == 0 {
        Seq::empty()
    } else {
        let rest = kept(pending.drop_last(), new);
        if pending.last().overlaps(new) {
            rest
        } else {
            rest.push(pending.last())
        }
    }
}

/// A new buffer replaces every pending one that it overlaps, and takes its place
/// in timestamp order.
pub open spec fn pushed(pending: Seq<Entry>, new: Entry) -> Seq<Entry> {
    let rest = kept(pending, new);
    rest.insert(slot(rest, new.timestamp), new)
}

/// Timestamp order, without overlaps.
pub open spec fn in_order(pending: Seq<Entry>) -> bool {
    &&& forall|i: int, j: int|
        0 <= i < j < pending.len() ==> (#[trigger] pending[i]).timestamp <= (
        #[trigger] pending[j]).timestamp
    &&& forall|i: int, j: int|
        0 <= i < j < pending.len() ==> !(#[trigger] pending[i]).overlaps(#[trigger] pending[j])
}

/// The playing state of a queue.
pub struct Source {
    pub pending: Seq<Entry>,
    pub current: Option<Entry>,
    pub index: int,
    pub cursor_us: i64,
    pub cursor_remainder: i64,
    pub retired_through: u64,
}

impl Source {
    /// Everything that is not retired, in playback order.
    pub open spec fn order(self) -> Seq<Entry> {
        match self.current {
            Some(entry) => seq![entry] + self.pending,
            None => self.pending,
        }
    }

    /// Identities are distinct, and none of them is already retired.
    pub open spec fn identified(self) -> bool {
        &&& forall|i: int, j: int|
            0 <= i < j < self.order().len() ==> (#[trigger] self.order()[i]).id != (
            #[trigger] self.order()[j]).id
        &&& forall|i: int|
            0 <= i < self.order().len() ==> (#[trigger] self.order()[i]).id != 0
                && self.order()[i].id != self.retired_through
    }

    /// The identity of the source being played, or 0.
    pub open spec fn current_id(self) -> u64 {
        match self.current {
            Some(entry) => entry.id,
            None => 0,
        }
    }

    /// Samples of the current source that have not been played.
    pub open spec fn left(self) -> int {
        match self.current {
            Some(entry) => if self.index < entry.samples.len() {
                entry.samples.len() - self.index
            } else {
                0
            },
            None => 0,
        }
    }
}

/// How many frames of a buffer the cursor has already passed.
pub open spec fn stale_frames(cursor_us: int, timestamp: int, rate: int) -> int {
    if cursor_us <= timestamp {
        0
    } else {
        (cursor_us - timestamp) * rate / 1_000_000
    }
}

/// The source with a playable buffer as its current one, if there is any. Buffers
/// that lie wholly behind the cursor are retired; of one that lies partly behind
/// it the passed frames are left out; before one that lies ahead the cursor moves
/// up to it.
pub open spec fn admitted(s: Source, channels: int, rate: int) -> Source
    decreases s.order().len(),
{
    match s.current {
        Some(entry) => if s.left() >= channels {
            s
        } else {
            admitted(
                Source { current: None, index: 0, retired_through: entry.id, ..s },
                channels,
                rate,
            )
        },
        None => if s.pending.len() == 0 {
            s
        } else {
            let entry = s.pending[0];
            let rest = s.pending.skip(1);
            let skip = stale_frames(s.cursor_us as int, entry.timestamp as int, rate);
            if skip >= entry.samples.len() as int / channels {
                admitted(
                    Source { pending: rest, retired_through: entry.id, ..s },
                    channels,
                    rate,
                )
            } else if entry.timestamp > s.cursor_us {
                Source {
                    pending: rest,
                    current: Some(entry),
                    index: 0,
                    cursor_us: entry.timestamp,
                    cursor_remainder: 0,
                    ..s
                }
            } else {
                Source { pending: rest, current: Some(entry), index: skip * channels, ..s }
            }
        },
    }
}

/// The nearest time that a cursor can hold.
pub open spec fn held_us(time: int) -> i64 {
    if time > i64::MAX {
        i64::MAX
    } else if time < i64::MIN {
        i64::MIN
    } else {
        time as i64
    }
}

/// The cursor one frame on, with what does not make a whole microsecond.
pub open spec fn cursor_after(cursor_us: i64, remainder: i64, rate: int) -> (i64, i64) {
    let time = remainder + 1_000_000;
    (held_us(cursor_us + time / rate), (time % rate) as i64)
}

/// One frame of the current source played.
pub open spec fn played(s: Source, channels: int, rate: int) -> Source {
    let cursor = cursor_after(s.cursor_us, s.cursor_remainder, rate);
    let moved = Source {
        index: s.index + channels,
        cursor_us: cursor.0,
        cursor_remainder: cursor.1,
        ..s
    };
    if moved.left() < channels {
        Source { current: None, index: 0, retired_through: s.current_id(), ..moved }
    } else {
        moved
    }
}

/// The source after one request for a frame.
pub open spec fn consumed(s: Source, channels: int, rate: int) -> Source {
    let ready = admitted(s, channels, rate);
    if ready.current is Some {
        played(ready, channels, rate)
    } else {
        ready
    }
}

/// The frame that a request gets.
pub open spec fn next_frame(s: Source, channels: int, rate: int) -> Option<Seq<i32>> {
    let ready = admitted(s, channels, rate);
    match ready.current {
        Some(entry) => Some(
            entry.samples.subrange(ready.index, ready.index + channels),
        ),
        None => None,
    }
}

proof fn lemma_nothing_left(s: Source, channels: int, rate: int)
    ensures
        admitted(s, channels, rate).current is None ==> admitted(
            s,
            channels,
            rate,
        ).pending.len() == 0,
    decreases s.order().len(),
{
    match s.current {
        Some(entry) => if s.left() < channels {
            let next = Source { current: None, index: 0, retired_through: entry.id, ..s };
            lemma_nothing_left(next, channels, rate);
        },
        None => if s.pending.len() > 0 {
            let entry = s.pending[0];
            let next = Source { pending: s.pending.skip(1), retired_through: entry.id, ..s };
            lemma_nothing_left(next, channels, rate);
        },
    }
}

/// A source that has run out stays so: once a request gets no frame, none does until
/// something is queued.
pub proof fn an_exhausted_source_stays_so(s: Source, channels: int, rate: int)
    requires
        next_frame(s, channels, rate) is None,
    ensures
        consumed(consumed(s, channels, rate), channels, rate) == consumed(s, channels, rate),
        next_frame(consumed(s, channels, rate), channels, rate) is None,
{
    lemma_nothing_left(s, channels, rate);
}

/// The first time at or after `target` at which something can be played.
pub open spec fn first_playable(order: Seq<Entry>, target: i64) -> Option<i64>
    decreases order.len(),
{
    if order.len() == 0 {
        None
    } else if target < order[0].end_us() {
        Some(if target < order[0].timestamp {
            order[0].timestamp
        } else {
            target
        })
    } else {
        first_playable(order.skip(1), target)
    }
}

/// What the first playable time is: the target itself or the beginning of a buffer, not
/// before the target, in the first buffer of the queue that ends after it. There is none
/// where every buffer has ended by then.
pub proof fn the_first_playable_time_is_found(order: Seq<Entry>, target: i64) -> (at: int)
    ensures
        first_playable(order, target) is None <==> forall|i: int|
            0 <= i < order.len() ==> (#[trigger] order[i]).end_us() <= target,
        first_playable(order, target) matches Some(time) ==> {
            &&& 0 <= at < order.len()
            &&& forall|i: int| 0 <= i < at ==> (#[trigger] order[i]).end_us() <= target
            &&& target < order[at].end_us()
            &&& time >= target
            &&& time >= order[at].timestamp
            &&& time == target || time == order[at].timestamp
        },
    decreases order.len(),
{
    if order.len() == 0 {
        0
    } else if target < order[0].end_us() {
        0
    } else {
        let rest = order.skip(1);
        let at = the_first_playable_time_is_found(rest, target);
        assert forall|i: int| 0 < i < order.len() implies #[trigger] order[i] == rest[i - 1] by {}
        if first_playable(order, target) is Some {
            assert(order[at + 1] == rest[at]);
        } else {
            assert forall|i: int| 0 <= i < order.len() implies (#[trigger] order[i]).end_us()
                <= target by {
                if i > 0 {
                    assert(rest[i - 1].end_us() <= target);
                }
            }
        }
        if forall|i: int| 0 <= i < order.len() ==> (#[trigger] order[i]).end_us() <= target {
            assert forall|i: int| 0 <= i < rest.len() implies (#[trigger] rest[i]).end_us()
                <= target by {
                assert(order[i + 1].end_us() <= target);
            }
        }
        at + 1
    }
}

/// Whether a buffer is playing at a time: it has begun, and what it has of frames lasts
/// beyond that time.
pub open spec fn is_playing_at(entry: Entry, time: int) -> bool {
    entry.timestamp <= time && (time - entry.timestamp) < (if entry.rate == 0 || entry.channels
        <= 0 {
        0
    } else {
        (entry.samples.len() as int / entry.channels) * 1_000_000 / entry.rate
    })
}

/// The first playable time is the least one at or after the target at which a buffer is
/// playing, of buffers that follow one another in time and all last.
pub proof fn the_first_playable_time_is_the_least(order: Seq<Entry>, target: i64)
    requires
        forall|i: int, j: int|
            0 <= i < j < order.len() ==> (#[trigger] order[i]).timestamp <= (
            #[trigger] order[j]).timestamp,
        forall|i: int|
            0 <= i < order.len() ==> is_playing_at(
                #[trigger] order[i],
                order[i].timestamp as int,
            ),
    ensures
        first_playable(order, target) matches Some(time) ==> {
            &&& time >= target
            &&& exists|i: int|
                0 <= i < order.len() && is_playing_at(#[trigger] order[i], time as int)
            &&& forall|u: int, i: int|
                target <= u < time && 0 <= i < order.len() ==> !#[trigger] is_playing_at(
                    order[i],
                    u,
                )
        },
        first_playable(order, target) is None ==> forall|u: int, i: int|
            target <= u && 0 <= i < order.len() ==> !#[trigger] is_playing_at(order[i], u),
{
    let at = the_first_playable_time_is_found(order, target);
    assert forall|i: int, u: int| 0 <= i < order.len() implies #[trigger] is_playing_at(order[i], u)
        == (order[i].timestamp <= u < order[i].end_us()) by {}
    match first_playable(order, target) {
        Some(time) => {
            assert(is_playing_at(order[at], order[at].timestamp as int));
            assert(is_playing_at(order[at], time as int));
            assert forall|u: int, i: int|
                target <= u < time && 0 <= i < order.len() implies !#[trigger] is_playing_at(
                order[i],
                u,
            ) by {
                if i >= at {
                    assert(order[at].timestamp <= order[i].timestamp);
                } else {
                    assert(order[i].end_us() <= target);
                }
            }
        },
        None => {},
    }
}

proof fn lemma_total_push(pending: Seq<Entry>, entry: Entry)
    ensures
        total_frames(pending.push(entry)) == total_frames(pending) + entry.frames(),
    decreases pending.len(),
{
    let longer = pending.push(entry);
    if pending.len() == 0 {
        assert(longer.skip(1) =~= Seq::<Entry>::empty());
        assert(total_frames(longer.skip(1)) == 0);
    } else {
        assert(longer.skip(1) =~= pending.skip(1).push(entry));
        lemma_total_push(pending.skip(1), entry);
    }
}

pub(crate) proof fn lemma_total_insert(pending: Seq<Entry>, at: int, entry: Entry)
    requires
        0 <= at <= pending.len(),
    ensures
        total_frames(pending.insert(at, entry)) == total_frames(pending) + entry.frames(),
    decreases pending.len(),
{
    let longer = pending.insert(at, entry);
    if at == 0 {
        assert(longer.skip(1) =~= pending);
    } else {
        assert(longer.skip(1) =~= pending.skip(1).insert(at - 1, entry));
        lemma_total_insert(pending.skip(1), at - 1, entry);
    }
}

proof fn lemma_total_remove(pending: Seq<Entry>, at: int)
    requires
        0 <= at < pending.len(),
    ensures
        total_frames(pending.remove(at)) == total_frames(pending) - pending[at].frames(),
    decreases pending.len(),
{
    if at == 0 {
        assert(pending.remove(0) =~= pending.skip(1));
    } else {
        assert(pending.remove(at).skip(1) =~= pending.skip(1).remove(at - 1));
        lemma_total_remove(pending.skip(1), at - 1);
    }
}

proof fn lemma_frames_nonnegative(entry: Entry)
    ensures
        0 <= entry.frames() <= entry.samples.len(),
{
    if entry.channels > 0 {
        lemma_div_bound(entry.samples.len() as int, entry.channels);
    }
}

proof fn lemma_total_nonnegative(pending: Seq<Entry>)
    ensures
        total_frames(pending) >= 0,
    decreases pending.len(),
{
    if pending.len() > 0 {
        lemma_frames_nonnegative(pending[0]);
        lemma_total_nonnegative(pending.skip(1));
    }
}

/// What is kept of a longer sequence.
proof fn lemma_kept_step(pending: Seq<Entry>, new: Entry, at: int)
    requires
        0 <= at < pending.len(),
    ensures
        kept(pending.take(at + 1), new) == if pending[at].overlaps(new) {
            kept(pending.take(at), new)
        } else {
            kept(pending.take(at), new).push(pending[at])
        },
{
    assert(pending.take(at + 1).drop_last() =~= pending.take(at));
    assert(pending.take(at + 1).last() == pending[at]);
}

/// What is kept is part of what was there, in its order.
pub(crate) proof fn lemma_kept_in_order(pending: Seq<Entry>, new: Entry)
    requires
        in_order(pending),
    ensures
        in_order(kept(pending, new)),
        forall|i: int|
            0 <= i < kept(pending, new).len() ==> pending.contains(#[trigger] kept(pending, new)[i])
                && !kept(pending, new)[i].overlaps(new),
    decreases pending.len(),
{
    if pending.len() > 0 {
        let shorter = pending.drop_last();
        lemma_kept_in_order(shorter, new);
        let rest = kept(shorter, new);
        let all = kept(pending, new);
        assert forall|i: int| 0 <= i < all.len() implies pending.contains(#[trigger] all[i])
            && !all[i].overlaps(new) by {
            if i < rest.len() {
                assert(all[i] == rest[i]);
                let k = choose|k: int| 0 <= k < shorter.len() && shorter[k] == rest[i];
                assert(pending[k] == all[i]);
            } else {
                assert(pending[pending.len() - 1] == all[i]);
            }
        }
        assert forall|i: int, j: int| 0 <= i < j < all.len() implies (
        #[trigger] all[i]).timestamp <= (#[trigger] all[j]).timestamp && !all[i].overlaps(
            all[j],
        ) by {
            if j < rest.len() {
                assert(all[i] == rest[i] && all[j] == rest[j]);
            } else {
                assert(all[i] == rest[i]);
                let k = choose|k: int| 0 <= k < shorter.len() && shorter[k] == rest[i];
                assert(pending[k] == all[i]);
                assert(pending[pending.len() - 1] == all[j]);
            }
        }
    }
}

/// The slot divides the earlier from the later.
pub(crate) proof fn lemma_slot(pending: Seq<Entry>, timestamp: i64)
    requires
        in_order(pending),
    ensures
        0 <= slot(pending, timestamp) <= pending.len(),
        forall|i: int|
            0 <= i < slot(pending, timestamp) ==> (#[trigger] pending[i]).timestamp <= timestamp,
        forall|i: int|
            slot(pending, timestamp) <= i < pending.len() ==> (#[trigger] pending[i]).timestamp
                > timestamp,
    decreases pending.len(),
{
    if pending.len() == 0 {
    } else if pending.last().timestamp <= timestamp {
    } else {
        let shorter = pending.drop_last();
        assert forall|i: int, j: int| 0 <= i < j < shorter.len() implies (
        #[trigger] shorter[i]).timestamp <= (#[trigger] shorter[j]).timestamp
            && !shorter[i].overlaps(shorter[j]) by {
            assert(shorter[i] == pending[i] && shorter[j] == pending[j]);
        }
        lemma_slot(shorter, timestamp);
        assert forall|i: int| 0 <= i < slot(pending, timestamp) implies (
        #[trigger] pending[i]).timestamp <= timestamp by {
            assert(pending[i] == shorter[i]);
        }
        assert forall|i: int| slot(pending, timestamp) <= i < pending.len() implies (
        #[trigger] pending[i]).timestamp > timestamp by {
            if i < shorter.len() {
                assert(pending[i] == shorter[i]);
            }
        }
    }
}

/// However buffers arrive, the pending ones stay in timestamp order and never
/// claim the same time twice; the new buffer is among them.
pub proof fn pushing_keeps_order(pending: Seq<Entry>, new: Entry)
    requires
        in_order(pending),
    ensures
        in_order(pushed(pending, new)),
        pushed(pending, new).contains(new),
{
    let rest = kept(pending, new);
    lemma_kept_in_order(pending, new);
    lemma_slot(rest, new.timestamp);
    let at = slot(rest, new.timestamp);
    let all = pushed(pending, new);
    assert(all[at] == new);
    assert forall|i: int, j: int| 0 <= i < j < all.len() implies (#[trigger] all[i]).timestamp <= (
    #[trigger] all[j]).timestamp && !all[i].overlaps(all[j]) by {
        let a = if i < at {
            i
        } else {
            i - 1
        };
        let b = if j < at {
            j
        } else {
            j - 1
        };
        if i != at {
            assert(all[i] == rest[a]);
        }
        if j != at {
            assert(all[j] == rest[b]);
        }
    }
}

/// A buffer that starts where nothing pending ends later, and behind the last
/// one, changes nothing that is already there: it is a pure suffix.
pub proof fn appending_is_a_pure_suffix(pending: Seq<Entry>, new: Entry, bound: int)
    requires
        forall|i: int| 0 <= i < pending.len() ==> (#[trigger] pending[i]).end_us() <= bound,
        pending.len() > 0 ==> pending.last().timestamp <= new.timestamp && bound <= new.timestamp,
    ensures
        pushed(pending, new) == pending.push(new),
    decreases pending.len(),
{
    lemma_kept_all(pending, new, bound);
    assert(pending.insert(pending.len() as int, new) =~= pending.push(new));
}

proof fn lemma_kept_all(pending: Seq<Entry>, new: Entry, bound: int)
    requires
        forall|i: int| 0 <= i < pending.len() ==> (#[trigger] pending[i]).end_us() <= bound,
        pending.len() > 0 ==> bound <= new.timestamp,
    ensures
        kept(pending, new) == pending,
    decreases pending.len(),
{
    if pending.len() > 0 {
        let shorter = pending.drop_last();
        assert forall|i: int| 0 <= i < shorter.len() implies (#[trigger] shorter[i]).end_us()
            <= bound by {
            assert(shorter[i] == pending[i]);
        }
        lemma_kept_all(shorter, new, bound);
        assert(pending[pending.len() - 1].end_us() <= bound);
        assert(shorter.push(pending.last()) =~= pending);
    }
}

/// The source queue. Its fields are public to the player; `well_formed` says how
/// they belong together.
#[derive(Debug)]
pub struct PlaybackQueue {
    pub queue: VecDeque<QueuedAudioBuffer>,
    pub current: Option<QueuedAudioBuffer>,
    pub index: usize,
    pub cursor_us: i64,
    pub cursor_remainder: i64,
    pub retired_through: u64,
    pub next_source_id: u64,
    pub pending_frames: usize,
    pub pending_end_upper_bound: Option<i128>,
    pub initialized: bool,
    pub generation: u64,
    pub force_reanchor: bool,
    pub enqueue_count: u64,
    pub settled_consumed: u64,
    pub attached: bool,
}

impl PlaybackQueue {
    /// What the queue plays.
    pub open spec fn source(&self) -> Source {
        Source {
            pending: entries(self.queue@),
            current: match self.current {
                Some(entry) => Some(entry@),
                None => None,
            },
            index: self.index as int,
            cursor_us: self.cursor_us,
            cursor_remainder: self.cursor_remainder,
            retired_through: self.retired_through,
        }
    }

    pub open spec fn well_formed(&self) -> bool {
        &&& self.pending_frames == total_frames(self.source().pending)
        &&& in_order(self.source().pending)
        &&& self.source().identified()
        &&& self.retired_through < self.next_source_id
        &&& forall|i: int|
            0 <= i < self.source().order().len() ==> (#[trigger] self.source().order()[i]).id
                < self.next_source_id
        &&& forall|i: int|
            0 <= i < self.source().pending.len() ==> (self.pending_end_upper_bound matches Some(
                bound,
            ) && (#[trigger] self.source().pending[i]).end_us() <= bound)
    }

    pub fn new() -> (queue: PlaybackQueue)
        ensures
            queue.well_formed(),
            queue.source() == (Source {
                pending: Seq::empty(),
                current: None,
                index: 0,
                cursor_us: 0,
                cursor_remainder: 0,
                retired_through: 0,
            }),
            queue.next_source_id == 1,
            !queue.initialized,
            !queue.force_reanchor,
            !queue.attached,
            queue.generation == 0,
            queue.enqueue_count == 0,
            queue.settled_consumed == 0,
            queue.pending_end_upper_bound is None,
    {
        let queue = PlaybackQueue {
            queue: VecDeque::new(),
            current: None,
            index: 0,
            cursor_us: 0,
            cursor_remainder: 0,
            retired_through: 0,
            next_source_id: 1,
            pending_frames: 0,
            pending_end_upper_bound: None,
            initialized: false,
            generation: 0,
            force_reanchor: false,
            enqueue_count: 0,
            settled_consumed: 0,
            attached: false,
        };
        assert(queue.source().pending =~= Seq::<Entry>::empty());
        queue
    }

    /// A queue that has forgotten every source. Identities already given stay given,
    /// and what was consumed stays consumed; a new generation begins.
    pub open spec fn emptied(&self, before: PlaybackQueue) -> bool {
        &&& self.source() == (Source {
            pending: Seq::empty(),
            current: None,
            index: 0,
            cursor_us: 0,
            cursor_remainder: 0,
            retired_through: before.retired_through,
        })
        &&& self.next_source_id == before.next_source_id
        &&& self.settled_consumed == before.settled_consumed
        &&& self.enqueue_count == before.enqueue_count
        &&& self.attached == before.attached
        &&& self.generation == before.generation.wrapping_add(1)
        &&& self.pending_end_upper_bound is None
        &&& !self.initialized
        &&& !self.force_reanchor
    }

    /// Forget every source.
    pub fn clear(&mut self)
        requires
            old(self).well_formed(),
        ensures
            final(self).well_formed(),
            final(self).emptied(*old(self)),
    {
        self.queue.clear();
        self.current = None;
        self.index = 0;
        self.cursor_us = 0;
        self.cursor_remainder = 0;
        self.pending_frames = 0;
        self.pending_end_upper_bound = None;
        self.initialized = false;
        self.force_reanchor = false;
        self.generation = self.generation.wrapping_add(1);
        assert(self.source().pending =~= Seq::<Entry>::empty());
    }

    /// Frames that have not been played: what is left of the current buffer, and
    /// everything pending.
    pub fn queued_frames(&self, channels: usize) -> (frames: usize)
        requires
            channels > 0,
            self.source().left() / channels as int + self.pending_frames <= usize::MAX,
        ensures
            frames == self.source().left() / channels as int + self.pending_frames,
    {
        let left: usize = self.left_samples();
        left / channels + self.pending_frames
    }

    pub(crate) fn left_samples(&self) -> (left: usize)
        ensures
            left == self.source().left(),
    {
        match &self.current {
            Some(entry) => {
                let samples: &[i32] = &entry.buffer.samples;
                let length: usize = samples.len();
                if self.index < length {
                    length - self.index
                } else {
                    0
                }
            },
            None => 0,
        }
    }

    pub fn buffer_count(&self) -> (count: usize)
        requires
            self.source().order().len() <= usize::MAX,
        ensures
            count == self.source().order().len(),
    {
        if self.current.is_some() {
            self.queue.len() + 1
        } else {
            self.queue.len()
        }
    }

    /// Take the first pending buffer.
    pub fn pop_pending(&mut self) -> (entry: Option<QueuedAudioBuffer>)
        requires
            old(self).pending_frames == total_frames(old(self).source().pending),
        ensures
            final(self).pending_frames == total_frames(final(self).source().pending),
            match entry {
                Some(e) => old(self).source().pending.len() > 0 && e@ == old(
                    self,
                ).source().pending[0] && final(self).source() == (Source {
                    pending: old(self).source().pending.skip(1),
                    ..old(self).source()
                }),
                None => old(self).source().pending.len() == 0 && final(self).source() == old(
                    self,
                ).source(),
            },
            final(self).same_but_source(*old(self)),
    {
        let ghost before = self.source();
        match self.queue.pop_front() {
            Some(entry) => {
                assert(self.source().pending =~= before.pending.skip(1));
                proof {
                    lemma_total_nonnegative(before.pending.skip(1));
                    lemma_frames_nonnegative(entry@);
                }
                self.pending_frames = self.pending_frames - entry.buffer.frames();
                Some(entry)
            },
            None => None,
        }
    }

    /// Everything but the playing state and its frame count stays.
    pub open spec fn same_but_source(&self, before: PlaybackQueue) -> bool {
        &&& self.next_source_id == before.next_source_id
        &&& self.pending_end_upper_bound == before.pending_end_upper_bound
        &&& self.initialized == before.initialized
        &&& self.generation == before.generation
        &&& self.force_reanchor == before.force_reanchor
        &&& self.enqueue_count == before.enqueue_count
        &&& self.settled_consumed == before.settled_consumed
        &&& self.attached == before.attached
    }
}

pub(crate) proof fn lemma_frame_fits(skip: int, channels: int, length: int)
    requires
        0 <= skip < length / channels,
        channels > 0,
        length >= 0,
    ensures
        0 <= skip * channels,
        skip * channels + channels <= length,
{
    assert(skip * channels + channels <= length && 0 <= skip * channels) by (nonlinear_arith)
        requires
            0 <= skip < length / channels,
            channels > 0,
            length >= 0,
    ;
}

/// How many frames of a buffer the cursor has passed, at most `limit`.
fn passed_frames(cursor_us: i64, timestamp: i64, rate: u32, limit: usize) -> (frames: usize)
    ensures
        frames == if stale_frames(cursor_us as int, timestamp as int, rate as int) < limit {
            stale_frames(cursor_us as int, timestamp as int, rate as int)
        } else {
            limit as int
        },
{
    if cursor_us <= timestamp {
        0
    } else {
        let behind: i128 = cursor_us as i128 - timestamp as i128;
        proof {
            assert(0 <= behind * rate <= 0x1_0000_0000_0000_0000 * 0x1_0000_0000)
                by (nonlinear_arith)
                requires
                    0 <= behind <= 0x1_0000_0000_0000_0000,
                    0 <= rate <= 0xffff_ffff,
            ;
        }
        let frames: i128 = behind * (rate as i128) / 1_000_000;
        if frames < limit as i128 {
            frames as usize
        } else {
            limit
        }
    }
}

/// The cursor one frame on.
fn next_cursor(cursor_us: i64, remainder: i64, rate: u32) -> (next: (i64, i64))
    requires
        rate > 0,
    ensures
        next == cursor_after(cursor_us, remainder, rate as int),
{
    let time: i128 = remainder as i128 + 1_000_000;
    let divisor: i128 = rate as i128;
    proof {
        lemma_euclidean(time as int, rate as int);
    }
    let (whole, rest): (i128, i128) = if time >= 0 {
        (time / divisor, time % divisor)
    } else {
        // Round down, so that what remains is never negative.
        let lower: i128 = -((-time + divisor - 1) / divisor);
        proof {
            lemma_round_down(time as int, rate as int);
        }
        (lower, time - lower * divisor)
    };
    let sum: i128 = cursor_us as i128 + whole;
    let cursor: i64 = if sum > i64::MAX as i128 {
        i64::MAX
    } else if sum < i64::MIN as i128 {
        i64::MIN
    } else {
        sum as i64
    };
    (cursor, rest as i64)
}

proof fn lemma_euclidean(time: int, rate: int)
    requires
        rate > 0,
    ensures
        time == (time / rate) * rate + time % rate,
        0 <= time % rate < rate,
        time >= 0 ==> 0 <= time / rate <= time,
        time < 0 ==> time <= time / rate < 0,
{
    assert(time == (time / rate) * rate + time % rate && 0 <= time % rate < rate && (time >= 0
        ==> 0 <= time / rate <= time) && (time < 0 ==> time <= time / rate < 0))
        by (nonlinear_arith)
        requires
            rate > 0,
    ;
}

proof fn lemma_round_down(time: int, rate: int)
    requires
        rate > 0,
        time < 0,
    ensures
        -((-time + rate - 1) / rate) == time / rate,
        time - (-((-time + rate - 1) / rate)) * rate == time % rate,
        time <= time / rate < 0,
        (time / rate) * rate == time - time % rate,
{
    lemma_euclidean(time, rate);
    let lower = (-time + rate - 1) / rate;
    lemma_euclidean(-time + rate - 1, rate);
    assert(lower == -(time / rate)) by (nonlinear_arith)
        requires
            rate > 0,
            time == (time / rate) * rate + time % rate,
            0 <= time % rate < rate,
            -time + rate - 1 == lower * rate + (-time + rate - 1) % rate,
            0 <= (-time + rate - 1) % rate < rate,
    ;
    assert((-lower) * rate == (time / rate) * rate);
}

/// Without drift: as long as the cursor stays within what it can hold, a number
/// of frames moves it by exactly the time that they last. What is not a whole
/// microsecond is carried, never lost.
pub proof fn the_cursor_does_not_drift(cursor_us: i64, remainder: i64, rate: int)
    requires
        rate > 0,
        i64::MIN <= cursor_us + (remainder + 1_000_000) / rate <= i64::MAX,
        rate <= u32::MAX,
    ensures
        ({
            let next = cursor_after(cursor_us, remainder, rate);
            next.0 * rate + next.1 == cursor_us * rate + remainder + 1_000_000
        }),
        0 <= cursor_after(cursor_us, remainder, rate).1 < rate,
{
    let time = remainder + 1_000_000;
    lemma_euclidean(time, rate);
    let next = cursor_after(cursor_us, remainder, rate);
    assert((cursor_us + time / rate) * rate == cursor_us * rate + (time / rate) * rate)
        by (nonlinear_arith);
}

impl PlaybackQueue {
    /// Bring a playable buffer to the front, if there is one.
    fn make_ready(&mut self, channels: usize, sample_rate: u32) -> (ready: bool)
        requires
            channels > 0,
            old(self).pending_frames == total_frames(old(self).source().pending),
        ensures
            final(self).pending_frames == total_frames(final(self).source().pending),
            final(self).source() == admitted(
                old(self).source(),
                channels as int,
                sample_rate as int,
            ),
            ready == (final(self).source().current is Some),
            ready ==> final(self).source().left() >= channels,
            final(self).same_but_source(*old(self)),
    {
        let ghost goal = admitted(self.source(), channels as int, sample_rate as int);
        loop
            invariant
                channels > 0,
                self.pending_frames == total_frames(self.source().pending),
                admitted(self.source(), channels as int, sample_rate as int) == goal,
                self.same_but_source(*old(self)),
            ensures
                self.pending_frames == total_frames(self.source().pending),
                self.source() == goal,
                self.same_but_source(*old(self)),
                self.source().current is Some ==> self.source().left() >= channels,
            decreases self.source().order().len(),
        {
            let ghost before = self.source();
            if self.current.is_some() {
                if self.left_samples() >= channels {
                    break;
                }
                match self.current.take() {
                    Some(entry) => {
                        self.index = 0;
                        self.retired_through = entry.source_id;
                        assert(self.source() == (Source {
                            current: None,
                            index: 0,
                            retired_through: entry@.id,
                            ..before
                        }));
                    },
                    None => {},
                }
            } else {
                match self.pop_pending() {
                    Some(entry) => {
                        let samples: &[i32] = &entry.buffer.samples;
                        let frames: usize = samples.len() / channels;
                        let timestamp: i64 = entry.buffer.timestamp;
                        let skip: usize = passed_frames(
                            self.cursor_us,
                            timestamp,
                            sample_rate,
                            frames,
                        );
                        if skip >= frames {
                            self.retired_through = entry.source_id;
                        } else {
                            proof {
                                lemma_frame_fits(
                                    skip as int,
                                    channels as int,
                                    samples@.len() as int,
                                );
                            }
                            if timestamp > self.cursor_us {
                                self.cursor_us = timestamp;
                                self.cursor_remainder = 0;
                                self.index = 0;
                            } else {
                                self.index = skip * channels;
                            }
                            self.current = Some(entry);
                            break;
                        }
                    },
                    None => {
                        break;
                    },
                }
            }
        }
        self.current.is_some()
    }

    /// Play one frame. `destination`, if there is one, takes its samples. Without
    /// a playable frame the answer is `false`, but buffers that the cursor has
    /// passed are retired all the same.
    pub fn consume_next_frame(
        &mut self,
        channels: usize,
        sample_rate: u32,
        destination: Option<&mut [i32]>,
    ) -> (consumed_one: bool)
        requires
            channels > 0,
            sample_rate > 0,
            old(self).pending_frames == total_frames(old(self).source().pending),
            destination matches Some(d) ==> d@.len() == channels,
        ensures
            final(self).pending_frames == total_frames(final(self).source().pending),
            final(self).source() == consumed(
                old(self).source(),
                channels as int,
                sample_rate as int,
            ),
            consumed_one == (next_frame(
                old(self).source(),
                channels as int,
                sample_rate as int,
            ) is Some),
            destination matches Some(d) ==> final(d)@ == match next_frame(
                old(self).source(),
                channels as int,
                sample_rate as int,
            ) {
                Some(frame) => frame,
                None => d@,
            },
            destination matches Some(d) ==> final(d)@.len() == channels,
            final(self).same_but_source(*old(self)),
    {
        if !self.make_ready(channels, sample_rate) {
            return false;
        }
        let ghost ready = self.source();
        let start: usize = self.index;
        match &self.current {
            Some(entry) => {
                let samples: &[i32] = &entry.buffer.samples;
                let length: usize = samples.len();
                assert(start + channels <= length);
                match destination {
                    Some(d) => {
                        copy_samples(d, samples, start);
                    },
                    None => {},
                }
            },
            None => {},
        }
        self.index = start + channels;
        let (cursor, remainder): (i64, i64) = next_cursor(
            self.cursor_us,
            self.cursor_remainder,
            sample_rate,
        );
        self.cursor_us = cursor;
        self.cursor_remainder = remainder;
        if self.left_samples() < channels {
            match self.current.take() {
                Some(entry) => {
                    self.retired_through = entry.source_id;
                },
                None => {},
            }
            self.index = 0;
        }
        assert(self.source() == played(ready, channels as int, sample_rate as int));
        true
    }
}

/// Fill `destination` from `source`, beginning at `from`.
pub fn copy_samples(destination: &mut [i32], source: &[i32], from: usize)
    requires
        from + old(destination)@.len() <= source@.len(),
    ensures
        final(destination)@ == source@.subrange(from as int, from + old(destination)@.len()),
{
    let length: usize = destination.len();
    let available: usize = source.len();
    let mut i: usize = 0;
    while i < length
        invariant
            i <= length,
            length == destination@.len(),
            length == old(destination)@.len(),
            source@.len() == available,
            from + length <= source@.len(),
            forall|k: int| 0 <= k < i ==> destination@[k] == source@[from + k],
        decreases length - i,
    {
        destination[i] = source[from + i];
        i += 1;
    }
    assert(destination@ =~= source@.subrange(from as int, from + length));
}

/// The cursor and the flags have no part in how the sources belong together.
pub(crate) proof fn lemma_same_order(before: PlaybackQueue, after: PlaybackQueue)
    requires
        before.well_formed(),
        after.source().pending == before.source().pending,
        after.source().current == before.source().current,
        after.retired_through == before.retired_through,
        after.next_source_id == before.next_source_id,
        after.pending_frames == before.pending_frames,
        after.pending_end_upper_bound == before.pending_end_upper_bound,
    ensures
        after.well_formed(),
{
    assert(after.source().order() == before.source().order());
    assert(after.source().identified()) by {
        assert forall|i: int, j: int| 0 <= i < j < after.source().order().len() implies (
        #[trigger] after.source().order()[i]).id != (#[trigger] after.source().order()[j]).id by {
            assert(before.source().order()[i].id != before.source().order()[j].id);
        }
        assert forall|i: int| 0 <= i < after.source().order().len() implies (
        #[trigger] after.source().order()[i]).id != 0 && after.source().order()[i].id
            != after.source().retired_through by {
            assert(before.source().order()[i].id != 0);
        }
    }
    assert forall|i: int| 0 <= i < after.source().order().len() implies (
    #[trigger] after.source().order()[i]).id < after.next_source_id by {
        assert(before.source().order()[i].id < before.next_source_id);
    }
    assert forall|i: int| 0 <= i < after.source().pending.len() implies (
    after.pending_end_upper_bound matches Some(bound) && (
    #[trigger] after.source().pending[i]).end_us() <= bound) by {
        assert(before.source().pending[i].end_us() <= before.pending_end_upper_bound->0);
    }
}

/// The bound over everything pending, with one more end.
fn raised(bound: Option<i128>, end: i128) -> (next: i128)
    ensures
        next >= end,
        bound matches Some(b) ==> next >= b,
        next == end || bound == Some(next),
{
    match bound {
        Some(b) => if b > end {
            b
        } else {
            end
        },
        None => end,
    }
}

impl PlaybackQueue {
    /// The entry that a buffer becomes.
    pub open spec fn entry_of(&self, buffer: AudioBuffer) -> Entry {
        QueuedAudioBuffer { source_id: self.next_source_id, buffer }@
    }

    /// Put a queued buffer in its place.
    pub(crate) fn place(&mut self, entry: QueuedAudioBuffer)
        requires
            old(self).well_formed(),
            old(self).next_source_id <= entry.source_id < u64::MAX,
            old(self).pending_frames + entry@.frames() <= usize::MAX,
        ensures
            final(self).well_formed(),
            final(self).source() == (Source {
                pending: pushed(old(self).source().pending, entry@),
                ..old(self).source()
            }),
            final(self).next_source_id == entry.source_id + 1,
            final(self).initialized == old(self).initialized,
            final(self).force_reanchor == old(self).force_reanchor,
            final(self).generation == old(self).generation,
            final(self).enqueue_count == old(self).enqueue_count,
            final(self).settled_consumed == old(self).settled_consumed,
            final(self).attached == old(self).attached,
            final(self).pending_frames <= old(self).pending_frames + entry@.frames(),
    {
        let ghost new = entry@;
        let ghost before = self.source();
        let ghost all = before.pending;
        let id: u64 = entry.source_id;
        let start: i64 = entry.buffer.timestamp;
        let end: i128 = entry.end_us();
        let frames: usize = entry.buffer.frames();
        proof {
            assert(all.take(0) =~= Seq::<Entry>::empty());
            assert(all.skip(0) =~= all);
            assert(Seq::<Entry>::empty() + all =~= all);
        }
        let mut i: usize = 0;
        let ghost mut done: int = 0;
        while i < self.queue.len()
            invariant
                0 <= done <= all.len(),
                entries(self.queue@) == kept(all.take(done), new) + all.skip(done),
                i == kept(all.take(done), new).len(),
                self.pending_frames == total_frames(entries(self.queue@)),
                self.pending_frames <= total_frames(all),
                new == entry@,
                start == new.timestamp,
                end == new.end_us(),
                self.source() == (Source { pending: entries(self.queue@), ..before }),
                self.same_but_source(*old(self)),
            decreases all.len() - done,
        {
            let ghost now = entries(self.queue@);
            assert(now[i as int] == all[done]);
            proof {
                lemma_kept_step(all, new, done);
            }
            let other = &self.queue[i];
            let meets: bool = (start as i128) < other.end_us() && (other.buffer.timestamp as i128)
                < end;
            assert(meets == all[done].overlaps(new));
            if meets {
                let removed_frames: usize = other.buffer.frames();
                let _ = self.queue.remove(i);
                proof {
                    lemma_total_remove(now, i as int);
                    lemma_total_nonnegative(now.remove(i as int));
                    lemma_frames_nonnegative(all[done]);
                    assert(entries(self.queue@) =~= now.remove(i as int));
                    assert(now.remove(i as int) =~= kept(all.take(done), new) + all.skip(
                        done + 1,
                    ));
                }
                self.pending_frames = self.pending_frames - removed_frames;
            } else {
                i += 1;
                proof {
                    assert(now =~= kept(all.take(done), new).push(all[done]) + all.skip(done + 1));
                }
            }
            proof {
                done = done + 1;
            }
        }
        let ghost rest = kept(all, new);
        proof {
            assert(all.take(done) + all.skip(done) =~= all);
            if done < all.len() {
                assert(entries(self.queue@).len() == i + (all.len() - done));
            }
            assert(done == all.len());
            assert(all.take(done) =~= all);
            assert(entries(self.queue@) =~= rest);
            lemma_kept_in_order(all, new);
            lemma_slot(rest, start);
        }
        let mut at: usize = self.queue.len();
        assert(rest.take(at as int) =~= rest);
        while at > 0 && self.queue[at - 1].buffer.timestamp > start
            invariant
                0 <= at <= rest.len(),
                entries(self.queue@) == rest,
                slot(rest.take(at as int), start) == slot(rest, start),
                start == new.timestamp,
            ensures
                at == slot(rest, start),
            decreases at,
        {
            assert(rest[at - 1] == self.queue@[at - 1]@);
            assert(rest.take(at as int).drop_last() =~= rest.take(at - 1));
            at -= 1;
        }
        let ghost placed = self.queue@;
        self.queue.insert(at, entry);
        proof {
            assert(entries(self.queue@) =~= rest.insert(at as int, new));
            lemma_total_insert(rest, at as int, new);
        }
        self.pending_frames = self.pending_frames + frames;
        let bound: i128 = raised(self.pending_end_upper_bound, end);
        self.pending_end_upper_bound = Some(bound);
        self.next_source_id = id + 1;
        proof {
            lemma_placed(*old(self), *self, new);
        }
    }

    /// The source with one entry more. The first one of a generation places the cursor.
    pub open spec fn source_with(&self, entry: Entry) -> Source {
        Source {
            pending: pushed(self.source().pending, entry),
            cursor_us: if self.initialized {
                self.cursor_us
            } else {
                entry.timestamp
            },
            cursor_remainder: if self.initialized {
                self.cursor_remainder
            } else {
                0
            },
            ..self.source()
        }
    }

    /// Queue a buffer under the next identity. The first one of a generation
    /// places the cursor and asks for an anchor.
    pub fn push(&mut self, buffer: AudioBuffer)
        requires
            old(self).well_formed(),
            old(self).next_source_id < u64::MAX,
            old(self).pending_frames + buffer.frame_count() <= usize::MAX,
        ensures
            final(self).well_formed(),
            final(self).source() == old(self).source_with(old(self).entry_of(buffer)),
            final(self).next_source_id == old(self).next_source_id + 1,
            final(self).initialized,
            final(self).force_reanchor == (old(self).force_reanchor || !old(self).initialized),
            final(self).generation == old(self).generation,
            final(self).enqueue_count == old(self).enqueue_count,
            final(self).settled_consumed == old(self).settled_consumed,
            final(self).attached == old(self).attached,
            final(self).pending_frames <= old(self).pending_frames + buffer.frame_count(),
    {
        let start: i64 = buffer.timestamp;
        let entry = QueuedAudioBuffer { source_id: self.next_source_id, buffer };
        assert(entry@.frames() == buffer.frame_count());
        self.place(entry);
        let ghost placed = *self;
        if !self.initialized {
            self.initialized = true;
            self.cursor_us = start;
            self.cursor_remainder = 0;
            self.force_reanchor = true;
        }
        proof {
            lemma_same_order(placed, *self);
        }
    }

    /// Whether a buffer would only extend what is pending, without disturbing any
    /// of it.
    pub open spec fn extends(&self, buffer: AudioBuffer) -> bool {
        self.source().pending.len() == 0 || (self.source().pending.last().timestamp
            <= buffer.timestamp && (self.pending_end_upper_bound matches Some(b)
            && buffer.timestamp >= b))
    }

    pub fn appends(&self, buffer: &AudioBuffer) -> (suffix: bool)
        requires
            self.well_formed(),
        ensures
            suffix == self.extends(*buffer),
            suffix ==> pushed(self.source().pending, self.entry_of(*buffer))
                == self.source().pending.push(self.entry_of(*buffer)),
    {
        let length: usize = self.queue.len();
        if length == 0 {
            proof {
                appending_is_a_pure_suffix(self.source().pending, self.entry_of(*buffer), 0);
            }
            return true;
        }
        let tail = &self.queue[length - 1];
        assert(self.source().pending.last() == tail@);
        let suffix: bool = tail.buffer.timestamp <= buffer.timestamp
            && match self.pending_end_upper_bound {
            Some(bound) => buffer.timestamp as i128 >= bound,
            None => false,
        };
        proof {
            if suffix {
                appending_is_a_pure_suffix(
                    self.source().pending,
                    self.entry_of(*buffer),
                    self.pending_end_upper_bound->0 as int,
                );
            }
        }
        suffix
    }

    /// The first time at or after `target` at which something can be played.
    pub fn first_playable_cursor_at_or_after(&self, target: i64) -> (cursor: Option<i64>)
        ensures
            cursor == first_playable(self.source().order(), target),
    {
        let ghost order = self.source().order();
        match &self.current {
            Some(entry) => {
                if (target as i128) < entry.end_us() {
                    let start: i64 = entry.buffer.timestamp;
                    return Some(if target < start {
                        start
                    } else {
                        target
                    });
                }
                assert(order.skip(1) =~= self.source().pending);
            },
            None => {},
        }
        let ghost pending = self.source().pending;
        let mut i: usize = 0;
        assert(pending.skip(0) =~= pending);
        while i < self.queue.len()
            invariant
                i <= self.queue@.len(),
                pending == entries(self.queue@),
                order == self.source().order(),
                first_playable(pending.skip(i as int), target) == first_playable(order, target),
            decreases self.queue@.len() - i,
        {
            let entry = &self.queue[i];
            assert(pending.skip(i as int)[0] == entry@);
            if (target as i128) < entry.end_us() {
                let start: i64 = entry.buffer.timestamp;
                return Some(if target < start {
                    start
                } else {
                    target
                });
            }
            assert(pending.skip(i as int).skip(1) =~= pending.skip(i + 1));
            i += 1;
        }
        None
    }
}

proof fn lemma_kept_members(pending: Seq<Entry>, new: Entry)
    ensures
        forall|i: int|
            0 <= i < kept(pending, new).len() ==> pending.contains(
                #[trigger] kept(pending, new)[i],
            ),
        kept(pending, new).len() <= pending.len(),
        forall|i: int, j: int|
            #![trigger kept(pending, new)[i], kept(pending, new)[j]]
            0 <= i < j < kept(pending, new).len() ==> exists|a: int, b: int|
                0 <= a < b < pending.len() && pending[a] == kept(pending, new)[i] && pending[b]
                    == kept(pending, new)[j],
    decreases pending.len(),
{
    if pending.len() > 0 {
        let shorter = pending.drop_last();
        lemma_kept_members(shorter, new);
        let rest = kept(shorter, new);
        let all = kept(pending, new);
        let end = pending.len() - 1;
        assert forall|i: int| 0 <= i < all.len() implies pending.contains(#[trigger] all[i]) by {
            if i < rest.len() {
                assert(all[i] == rest[i]);
                let k = choose|k: int| 0 <= k < shorter.len() && shorter[k] == rest[i];
                assert(pending[k] == all[i]);
            } else {
                assert(pending[end] == all[i]);
            }
        }
        assert forall|i: int, j: int|
            #![trigger all[i], all[j]]
            0 <= i < j < all.len() implies exists|a: int, b: int|
            0 <= a < b < pending.len() && pending[a] == all[i] && pending[b] == all[j] by {
            assert(all[i] == rest[i]);
            if j < rest.len() {
                assert(all[j] == rest[j]);
                let (a, b) = choose|a: int, b: int|
                    0 <= a < b < shorter.len() && shorter[a] == rest[i] && shorter[b] == rest[j];
                assert(pending[a] == all[i] && pending[b] == all[j]);
            } else {
                let a = choose|a: int| 0 <= a < shorter.len() && shorter[a] == rest[i];
                assert(pending[a] == all[i] && pending[end] == all[j]);
            }
        }
    }
}

proof fn lemma_slot_bounds(pending: Seq<Entry>, timestamp: i64)
    ensures
        0 <= slot(pending, timestamp) <= pending.len(),
    decreases pending.len(),
{
    if pending.len() > 0 && pending.last().timestamp > timestamp {
        lemma_slot_bounds(pending.drop_last(), timestamp);
    }
}

/// A new buffer adds at most itself.
pub(crate) proof fn lemma_pushed_length(pending: Seq<Entry>, new: Entry)
    ensures
        pushed(pending, new).len() <= pending.len() + 1,
{
    lemma_kept_members(pending, new);
    lemma_slot_bounds(kept(pending, new), new.timestamp);
}

proof fn lemma_pushed_members(pending: Seq<Entry>, new: Entry)
    ensures
        forall|i: int|
            0 <= i < pushed(pending, new).len() ==> (#[trigger] pushed(pending, new)[i]) == new
                || pending.contains(pushed(pending, new)[i]),
{
    let rest = kept(pending, new);
    let all = pushed(pending, new);
    let at = slot(rest, new.timestamp);
    lemma_slot_bounds(rest, new.timestamp);
    lemma_kept_members(pending, new);
    assert forall|i: int| 0 <= i < all.len() implies (#[trigger] all[i]) == new
        || pending.contains(all[i]) by {
        if i < at {
            assert(all[i] == rest[i]);
        } else if i > at {
            assert(all[i] == rest[i - 1]);
        }
    }
}

/// A queue with one entry more is well formed, under a bound that covers its end.
proof fn lemma_placed(before: PlaybackQueue, after: PlaybackQueue, new: Entry)
    requires
        before.well_formed(),
        before.next_source_id <= new.id,
        after.source() == (Source {
            pending: pushed(before.source().pending, new),
            ..before.source()
        }),
        after.pending_frames == total_frames(after.source().pending),
        after.next_source_id == new.id + 1,
        after.pending_end_upper_bound matches Some(bound) && bound >= new.end_us() && (
        before.pending_end_upper_bound matches Some(known) ==> bound >= known),
    ensures
        after.well_formed(),
{
    let all = before.source().pending;
    let bound = after.pending_end_upper_bound->0;
    pushing_keeps_order(all, new);
    lemma_pushed_members(all, new);
    assert forall|k: int| 0 <= k < after.source().pending.len() implies (
    #[trigger] after.source().pending[k]).end_us() <= bound by {
        let entry = after.source().pending[k];
        if entry != new {
            let j = choose|j: int| 0 <= j < all.len() && all[j] == entry;
            assert(all[j].end_us() <= before.pending_end_upper_bound->0);
        }
    }
    lemma_pushed_identified(before.source(), new, after.source());
}

/// A fresh identity keeps the identities of what is pending distinct.
#[verifier::spinoff_prover]
proof fn lemma_pushed_distinct(pending: Seq<Entry>, new: Entry)
    requires
        forall|i: int, j: int|
            0 <= i < j < pending.len() ==> (#[trigger] pending[i]).id != (
            #[trigger] pending[j]).id,
        forall|i: int| 0 <= i < pending.len() ==> (#[trigger] pending[i]).id < new.id,
    ensures
        forall|i: int, j: int|
            0 <= i < j < pushed(pending, new).len() ==> (#[trigger] pushed(pending, new)[i]).id != (
            #[trigger] pushed(pending, new)[j]).id,
{
    let rest = kept(pending, new);
    let all = pushed(pending, new);
    let at = slot(rest, new.timestamp);
    lemma_slot_bounds(rest, new.timestamp);
    lemma_kept_members(pending, new);
    assert forall|i: int, j: int| 0 <= i < j < all.len() implies (#[trigger] all[i]).id != (
    #[trigger] all[j]).id by {
        let x = if i < at {
            i
        } else {
            i - 1
        };
        let y = if j < at {
            j
        } else {
            j - 1
        };
        if i == at {
            assert(all[j] == rest[y]);
            assert(pending.contains(rest[y]));
        } else if j == at {
            assert(all[i] == rest[x]);
            assert(pending.contains(rest[x]));
        } else {
            assert(all[i] == rest[x] && all[j] == rest[y] && x < y);
            let (a, b) = choose|a: int, b: int|
                0 <= a < b < pending.len() && pending[a] == rest[x] && pending[b] == rest[y];
            assert(pending[a].id != pending[b].id);
        }
    }
}

/// A fresh identity keeps identities distinct.
#[verifier::spinoff_prover]
proof fn lemma_pushed_identified(before: Source, new: Entry, after: Source)
    requires
        before.identified(),
        after.pending == pushed(before.pending, new),
        after.current == before.current,
        after.retired_through == before.retired_through,
        new.id != 0,
        new.id > before.retired_through,
        forall|i: int| 0 <= i < before.order().len() ==> (#[trigger] before.order()[i]).id < new.id,
    ensures
        after.identified(),
        forall|i: int| 0 <= i < after.order().len() ==> (#[trigger] after.order()[i]).id <= new.id,
{
    let all = after.pending;
    let order = before.order();
    let c: int = if before.current is Some {
        1
    } else {
        0
    };
    assert forall|i: int| 0 <= i < before.pending.len() implies #[trigger] before.pending[i]
        == order[i + c] by {}
    assert forall|i: int, j: int| 0 <= i < j < before.pending.len() implies (
    #[trigger] before.pending[i]).id != (#[trigger] before.pending[j]).id by {
        assert(order[i + c].id != order[j + c].id);
    }
    assert forall|i: int| 0 <= i < before.pending.len() implies (#[trigger] before.pending[i]).id
        < new.id by {
        assert(order[i + c].id < new.id);
    }
    lemma_pushed_distinct(before.pending, new);
    lemma_pushed_members(before.pending, new);
    assert forall|k: int| 0 <= k < all.len() implies (#[trigger] all[k]).id <= new.id && all[k].id
        != 0 && all[k].id != before.retired_through && (c == 1 ==> all[k].id != order[0].id) by {
        if all[k] != new {
            let j = choose|j: int| 0 <= j < before.pending.len() && before.pending[j] == all[k];
            assert(order[j + c] == all[k]);
            if c == 1 {
                assert(order[0].id != order[j + c].id);
            }
        }
    }
    assert forall|i: int| 0 <= i < after.order().len() implies (#[trigger] after.order()[i]).id
        <= new.id && after.order()[i].id != 0 && after.order()[i].id != after.retired_through by {
        if i >= c {
            assert(after.order()[i] == all[i - c]);
        } else {
            assert(after.order()[i] == order[i]);
        }
    }
    assert forall|i: int, j: int| 0 <= i < j < after.order().len() implies (
    #[trigger] after.order()[i]).id != (#[trigger] after.order()[j]).id by {
        assert(after.order()[j] == all[j - c]);
        if i < c {
            assert(after.order()[i] == order[0]);
        } else {
            assert(after.order()[i] == all[i - c]);
        }
    }
}

} // verus!
