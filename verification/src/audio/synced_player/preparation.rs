//! The non-realtime view of a source, and the windows of uncorrected PCM that
//! are prepared from it.
use super::ingress::checkpoint::SourcePosition;
use super::queue::{
    admitted, consumed, in_order, next_frame, played, total_frames, Entry,
    PlaybackQueue, Source,
};
use vstd::prelude::*;

verus! {

/// The position that a source has reached.
pub open spec fn position_of(s: Source) -> SourcePosition {
    SourcePosition {
        retired_through: s.retired_through,
        current: s.current_id(),
        index: s.index as usize,
        cursor_us: s.cursor_us,
        cursor_remainder: s.cursor_remainder,
    }
}

/// `t` is `s` with its first `count` sources retired, and otherwise moved on.
pub open spec fn follows(s: Source, t: Source, count: int) -> bool {
    &&& 0 <= count <= s.order().len()
    &&& t.order() == s.order().skip(count)
    &&& t.retired_through == if count == 0 {
        s.retired_through
    } else {
        s.order()[count - 1].id
    }
    &&& count == 0 && s.current is Some ==> t.current is Some
}

proof fn lemma_follows_trans(s: Source, t: Source, u: Source, a: int, b: int)
    requires
        follows(s, t, a),
        follows(t, u, b),
    ensures
        follows(s, u, a + b),
{
    assert(s.order().skip(a).skip(b) =~= s.order().skip(a + b));
    if b > 0 {
        assert(t.order()[b - 1] == s.order()[a + b - 1]);
    }
}

proof fn lemma_admitted_follows(s: Source, channels: int, rate: int) -> (count: int)
    ensures
        follows(s, admitted(s, channels, rate), count),
    decreases s.order().len(),
{
    match s.current {
        Some(entry) => {
            if s.left() >= channels {
                assert(s.order().skip(0) =~= s.order());
                0
            } else {
                let next = Source { current: None, index: 0, retired_through: entry.id, ..s };
                assert(s.order().skip(1) =~= next.order());
                let rest = lemma_admitted_follows(next, channels, rate);
                lemma_follows_trans(s, next, admitted(next, channels, rate), 1, rest);
                1 + rest
            }
        },
        None => {
            assert(s.order().skip(0) =~= s.order());
            if s.pending.len() == 0 {
                0
            } else {
                let entry = s.pending[0];
                let skip = super::queue::stale_frames(
                    s.cursor_us as int,
                    entry.timestamp as int,
                    rate,
                );
                if skip >= entry.samples.len() as int / channels {
                    let next = Source {
                        pending: s.pending.skip(1),
                        retired_through: entry.id,
                        ..s
                    };
                    let rest = lemma_admitted_follows(next, channels, rate);
                    lemma_follows_trans(s, next, admitted(next, channels, rate), 1, rest);
                    1 + rest
                } else {
                    assert(admitted(s, channels, rate).order() =~= s.order());
                    0
                }
            }
        },
    }
}

/// One request for a frame retires a run of sources from the front, and nothing
/// else.
pub(crate) proof fn lemma_consumed_follows(s: Source, channels: int, rate: int) -> (count: int)
    ensures
        follows(s, consumed(s, channels, rate), count),
{
    let ready = admitted(s, channels, rate);
    let count = lemma_admitted_follows(s, channels, rate);
    if ready.current is Some {
        let next = played(ready, channels, rate);
        if next.current is Some {
            assert(ready.order().skip(0) =~= next.order());
            lemma_follows_trans(s, ready, next, count, 0);
            count
        } else {
            assert(ready.order().skip(1) =~= next.order());
            lemma_follows_trans(s, ready, next, count, 1);
            count + 1
        }
    } else {
        count
    }
}

/// The source after a number of requests for a frame.
pub open spec fn source_after(s: Source, requests: int, channels: int, rate: int) -> Source
    decreases requests,
{
    if requests <= 0 {
        s
    } else {
        consumed(source_after(s, requests - 1, channels, rate), channels, rate)
    }
}

proof fn lemma_source_after_follows(s: Source, requests: int, channels: int, rate: int) -> (count:
    int)
    ensures
        follows(s, source_after(s, requests, channels, rate), count),
    decreases requests,
{
    if requests <= 0 {
        assert(s.order().skip(0) =~= s.order());
        0
    } else {
        let before = source_after(s, requests - 1, channels, rate);
        let count = lemma_source_after_follows(s, requests - 1, channels, rate);
        let more = lemma_consumed_follows(before, channels, rate);
        lemma_follows_trans(s, before, consumed(before, channels, rate), count, more);
        count + more
    }
}

/// A source that is played is never anonymous.
pub(crate) proof fn lemma_current_is_identified(s: Source, requests: int, channels: int, rate: int)
    requires
        s.identified(),
        source_after(s, requests, channels, rate).current is Some,
    ensures
        source_after(s, requests, channels, rate).current_id() != 0,
{
    let t = source_after(s, requests, channels, rate);
    let count = lemma_source_after_follows(s, requests, channels, rate);
    assert(t.order().len() == t.pending.len() + 1);
    assert(s.order().skip(count)[0] == s.order()[count]);
    assert(t.order()[0] == t.current->0);
}

/// The place of an identity in playback order, or the length if it is not there.
pub open spec fn first_of(order: Seq<Entry>, id: u64) -> int
    decreases order.len(),
{
    if order.len() == 0 {
        0
    } else if order[0].id == id {
        0
    } else {
        1 + first_of(order.skip(1), id)
    }
}

pub(crate) proof fn lemma_first_of(order: Seq<Entry>, id: u64)
    ensures
        0 <= first_of(order, id) <= order.len(),
        first_of(order, id) < order.len() ==> order[first_of(order, id)].id == id,
        forall|i: int| 0 <= i < first_of(order, id) ==> (#[trigger] order[i]).id != id,
    decreases order.len(),
{
    if order.len() > 0 && order[0].id != id {
        let rest = order.skip(1);
        lemma_first_of(rest, id);
        assert forall|i: int| 0 <= i < first_of(order, id) implies (#[trigger] order[i]).id
            != id by {
            if i > 0 {
                assert(order[i] == rest[i - 1]);
            }
        }
        if first_of(rest, id) < rest.len() {
            assert(order[first_of(order, id)] == rest[first_of(rest, id)]);
        }
    }
}

proof fn lemma_first_of_distinct(order: Seq<Entry>, at: int)
    requires
        0 <= at < order.len(),
        forall|i: int, j: int|
            0 <= i < j < order.len() ==> (#[trigger] order[i]).id != (#[trigger] order[j]).id,
    ensures
        first_of(order, order[at].id) == at,
{
    let id = order[at].id;
    lemma_first_of(order, id);
    let found = first_of(order, id);
    if found > at {
        assert(order[at].id != id);
    } else if found < at {
        assert(order[found].id != order[at].id);
    }
}

/// The source with everything up to an identity retired.
pub open spec fn retired(s: Source, through: u64) -> Source {
    if through == s.retired_through {
        s
    } else {
        Source {
            current: None,
            pending: s.order().skip(first_of(s.order(), through) + 1),
            retired_through: through,
            ..s
        }
    }
}

/// The source with its first pending buffer made current, if a current one is
/// called for and there is none.
pub open spec fn entered_source(s: Source, current: u64) -> Source {
    if current != 0 && s.current is None && s.pending.len() > 0 {
        Source { current: Some(s.pending[0]), pending: s.pending.skip(1), ..s }
    } else {
        s
    }
}

/// Whether a position belongs to a retained view of the source.
pub open spec fn holds(s: Source, position: SourcePosition) -> bool {
    &&& position.retired_through == s.retired_through || first_of(
        s.order(),
        position.retired_through,
    ) < s.order().len()
    &&& entered_source(
        retired(s, position.retired_through),
        position.current,
    ).current_id() == position.current
}

/// The retained view, moved to an actual position.
pub open spec fn reconciled(s: Source, position: SourcePosition) -> Source {
    Source {
        index: position.index as int,
        cursor_us: position.cursor_us,
        cursor_remainder: position.cursor_remainder,
        ..entered_source(retired(s, position.retired_through), position.current)
    }
}

/// A retained view that is moved to a position becomes the source that reached
/// that position. Nothing is replayed: from a position alone, reconciliation
/// finds the very state that so many frames of playing led to, whatever was
/// skipped or retired on the way.
pub proof fn a_position_restores_the_source(s: Source, frames: int, channels: int, rate: int)
    requires
        s.identified(),
        0 <= source_after(s, frames, channels, rate).index <= usize::MAX,
    ensures
        holds(s, position_of(source_after(s, frames, channels, rate))),
        reconciled(s, position_of(source_after(s, frames, channels, rate))) == source_after(
            s,
            frames,
            channels,
            rate,
        ),
{
    let t = source_after(s, frames, channels, rate);
    let count = lemma_source_after_follows(s, frames, channels, rate);
    let position = position_of(t);
    if count > 0 {
        lemma_first_of_distinct(s.order(), count - 1);
        assert(s.order()[count - 1].id != s.retired_through);
    }
    let r = retired(s, position.retired_through);
    assert(r.order() =~= t.order());
    if t.current is Some {
        assert(t.order()[0] == s.order()[count]);
        assert(t.current_id() != 0);
        if r.current is None {
            assert(r.pending[0] == t.order()[0]);
            assert(r.pending.skip(1) =~= t.pending);
        } else {
            assert(r.pending =~= t.order().skip(1));
            assert(t.pending =~= t.order().skip(1));
        }
    } else {
        assert(r.current is None);
        assert(r.pending =~= t.pending);
    }
}

/// What a queue keeps when its source moves on.
pub(crate) proof fn lemma_follows_well_formed(before: PlaybackQueue, after: PlaybackQueue, count: int)
    requires
        before.well_formed(),
        follows(before.source(), after.source(), count),
        after.pending_frames == total_frames(after.source().pending),
        after.same_but_source(before),
    ensures
        after.well_formed(),
{
    let s = before.source();
    let t = after.source();
    let c: int = if s.current is Some {
        1
    } else {
        0
    };
    let d: int = if t.current is Some {
        1
    } else {
        0
    };
    let shift = count + d - c;
    assert forall|i: int| 0 <= i < t.pending.len() implies #[trigger] t.pending[i] == s.pending[i
        + shift] && 0 <= i + shift < s.pending.len() by {
        assert(t.order()[i + d] == t.pending[i]);
        assert(t.order()[i + d] == s.order()[i + d + count]);
        assert(s.order()[i + shift + c] == s.pending[i + shift]);
    }
    assert forall|i: int| 0 <= i < t.order().len() implies #[trigger] t.order()[i] == s.order()[i
        + count] by {}
    assert(in_order(t.pending)) by {
        assert forall|i: int, j: int| 0 <= i < j < t.pending.len() implies (
        #[trigger] t.pending[i]).timestamp <= (#[trigger] t.pending[j]).timestamp
            && !t.pending[i].overlaps(t.pending[j]) by {
            assert(t.pending[i] == s.pending[i + shift] && t.pending[j] == s.pending[j + shift]);
        }
    }
    assert(t.identified()) by {
        assert forall|i: int, j: int| 0 <= i < j < t.order().len() implies (
        #[trigger] t.order()[i]).id != (#[trigger] t.order()[j]).id by {
            assert(t.order()[i] == s.order()[i + count] && t.order()[j] == s.order()[j + count]);
        }
        assert forall|i: int| 0 <= i < t.order().len() implies (#[trigger] t.order()[i]).id != 0
            && t.order()[i].id != t.retired_through by {
            assert(t.order()[i] == s.order()[i + count]);
            if count > 0 {
                assert(s.order()[count - 1].id != s.order()[i + count].id);
            }
        }
    }
    if count > 0 {
        assert(s.order()[count - 1].id < before.next_source_id);
    }
}

/// What the device needs to know to take one prepared frame: the state it must
/// be in, whether the frame begins a source and so belongs to one version only,
/// and the position it leads to.
#[derive(Clone, Copy, Debug, PartialEq, Eq, Structural)]
pub struct Frame {
    pub before_current: u64,
    pub before_index: usize,
    pub requires_epoch: bool,
    pub position: SourcePosition,
}

/// A frame that nothing was prepared for.
pub open spec fn blank_frame() -> Frame {
    Frame {
        before_current: 0,
        before_index: 0,
        requires_epoch: true,
        position: SourcePosition {
            retired_through: 0,
            current: 0,
            index: 0,
            cursor_us: 0,
            cursor_remainder: 0,
        },
    }
}

impl Default for Frame {
    fn default() -> (frame: Frame)
        ensures
            frame == blank_frame(),
    {
        Frame {
            before_current: 0,
            before_index: 0,
            requires_epoch: true,
            position: SourcePosition {
                retired_through: 0,
                current: 0,
                index: 0,
                cursor_us: 0,
                cursor_remainder: 0,
            },
        }
    }
}

/// A window of prepared frames: `valid` of them, from source frame `source_base`
/// on. A tail without a frame tells of sources that were retired unplayed.
#[derive(Debug)]
pub struct Window {
    pub epoch: u64,
    pub source_base: u64,
    pub cursor_before: Option<i64>,
    pub frames: Vec<Frame>,
    pub pcm: Vec<i32>,
    pub valid: usize,
    pub skipped_tail: Option<Frame>,
}

/// The bytes of an array of `count` elements, if there can be such an array.
pub open spec fn array_bytes<T>(count: usize) -> Option<usize> {
    if count * vstd::layout::size_of::<T>() <= isize::MAX {
        Some((count * vstd::layout::size_of::<T>()) as usize)
    } else {
        None
    }
}

/// `std::alloc::Layout::array`, and the size of the layout that it gives. Claimed
/// of it is what its documentation says: the layout of `count` elements, or an
/// error where their size overflows or exceeds `isize::MAX`.
#[verifier::external_body]
pub(crate) fn layout_bytes<T>(count: usize) -> (bytes: Option<usize>)
    ensures
        bytes == array_bytes::<T>(count),
{
    std::alloc::Layout::array::<T>(count).ok().map(|layout| layout.size())
}

impl Window {
    pub open spec fn sized(&self, frames: int, channels: int) -> bool {
        &&& self.frames@.len() == frames
        &&& self.pcm@.len() == frames * channels
    }

    /// An empty window. The worker refills its allocations without resizing.
    pub fn new(frames: usize, channels: usize) -> (window: Option<Window>)
        ensures
            window is Some <==> frames > 0 && channels > 0 && frames * channels <= usize::MAX
                && array_bytes::<Frame>(frames) is Some && array_bytes::<i32>(
                (frames * channels) as usize,
            ) is Some,
            window matches Some(w) ==> w.sized(frames as int, channels as int) && w.epoch == 0
                && w.source_base == 0 && w.cursor_before is None && w.valid == 0
                && w.skipped_tail is None && w.pcm@ == Seq::new(
                (frames * channels) as nat,
                |i: int| 0i32,
            ) && w.frames@ == Seq::new(frames as nat, |i: int| blank_frame()),
    {
        if frames == 0 || channels == 0 {
            return None;
        }
        let samples: usize = frames.checked_mul(channels)?;
        layout_bytes::<Frame>(frames)?;
        layout_bytes::<i32>(samples)?;
        let blank: Vec<Frame> = vec![Frame::default(); frames];
        let silence: Vec<i32> = vec![0; samples];
        assert(blank@ =~= Seq::new(frames as nat, |i: int| blank_frame()));
        assert(silence@ =~= Seq::new((frames * channels) as nat, |i: int| 0i32));
        Some(
            Window {
                epoch: 0,
                source_base: 0,
                cursor_before: None,
                frames: blank,
                pcm: silence,
                valid: 0,
                skipped_tail: None,
            },
        )
    }
}

/// What a frame says when it is prepared from one source state and leads to the
/// next.
pub open spec fn frame_between(before: Source, after: Source, channels: int) -> Frame {
    Frame {
        before_current: before.current_id(),
        before_index: before.index as usize,
        requires_epoch: before.left() / channels == 0,
        position: position_of(after),
    }
}

/// The samples of one frame.
pub open spec fn chunk(pcm: Seq<i32>, at: int, channels: int) -> Seq<i32> {
    pcm.subrange(at * channels, at * channels + channels)
}

pub(crate) proof fn lemma_chunk_bounds(at: int, frames: int, channels: int)
    requires
        0 <= at < frames,
        channels > 0,
    ensures
        0 <= at * channels,
        at * channels + channels <= frames * channels,
        (at + 1) * channels == at * channels + channels,
{
    assert(0 <= at * channels && at * channels + channels <= frames * channels && (at + 1)
        * channels == at * channels + channels) by (nonlinear_arith)
        requires
            0 <= at < frames,
            channels > 0,
    ;
}

/// One chunk replaced: the earlier ones stay.
proof fn lemma_chunk_write(before: Seq<i32>, after: Seq<i32>, at: int, channels: int, frames: int)
    requires
        channels > 0,
        0 <= at < frames,
        before.len() == frames * channels,
        after.len() == before.len(),
        after.take(at * channels) == before.take(at * channels),
        after.skip(at * channels + channels) == before.skip(at * channels + channels),
    ensures
        forall|k: int|
            0 <= k < at ==> #[trigger] chunk(after, k, channels) == chunk(before, k, channels),
{
    lemma_chunk_bounds(at, frames, channels);
    assert forall|k: int| 0 <= k < at implies #[trigger] chunk(after, k, channels) == chunk(
        before,
        k,
        channels,
    ) by {
        lemma_chunk_bounds(k, at, channels);
        assert forall|j: int| 0 <= j < channels implies chunk(after, k, channels)[j] == chunk(
            before,
            k,
            channels,
        )[j] by {
            assert(after[k * channels + j] == after.take(at * channels)[k * channels + j]);
            assert(before[k * channels + j] == before.take(at * channels)[k * channels + j]);
        }
        assert(chunk(after, k, channels) =~= chunk(before, k, channels));
    }
}

/// A window filled from a source, exactly: as many frames as it holds and the
/// source has, each with its samples and the position that it leads to.
pub open spec fn fills(s: Source, before: Window, after: Window, channels: int, rate: int) -> bool {
    let size = before.frames@.len() as int;
    &&& after.sized(size, channels)
    &&& 0 <= after.valid <= size
    &&& forall|k: int|
        0 <= k < after.valid ==> next_frame(source_after(s, k, channels, rate), channels, rate)
            == Some(#[trigger] chunk(after.pcm@, k, channels))
    &&& forall|k: int|
        0 <= k < after.valid ==> #[trigger] after.frames@[k] == frame_between(
            source_after(s, k, channels, rate),
            source_after(s, k + 1, channels, rate),
            channels,
        )
    &&& forall|k: int| after.valid <= k < size ==> #[trigger] after.frames@[k] == before.frames@[k]
    &&& after.pcm@.skip(after.valid * channels) == before.pcm@.skip(after.valid * channels)
    &&& after.valid < size ==> next_frame(
        source_after(s, after.valid as int, channels, rate),
        channels,
        rate,
    ) is None
    &&& after.skipped_tail == if after.valid < size && source_after(
        s,
        after.valid + 1,
        channels,
        rate,
    ).retired_through != source_after(s, after.valid as int, channels, rate).retired_through {
        Some(
            frame_between(
                source_after(s, after.valid as int, channels, rate),
                source_after(s, after.valid + 1, channels, rate),
                channels,
            ),
        )
    } else {
        None
    }
}

/// The requests that filling a window makes of the source.
pub open spec fn requests_made(window: Window) -> int {
    if window.valid < window.frames@.len() {
        window.valid + 1
    } else {
        window.valid as int
    }
}

impl PlaybackQueue {
    /// The position that the source has reached.
    pub fn source_position(&self) -> (position: SourcePosition)
        ensures
            position == position_of(self.source()),
    {
        SourcePosition {
            retired_through: self.retired_through,
            current: match &self.current {
                Some(entry) => entry.source_id,
                None => 0,
            },
            index: self.index,
            cursor_us: self.cursor_us,
            cursor_remainder: self.cursor_remainder,
        }
    }

    /// Make `destination` a second view of the same source. The samples stay
    /// shared; the destination's own attachment and what it has settled stay.
    pub fn copy_source_into(&self, destination: &mut PlaybackQueue)
        requires
            self.well_formed(),
        ensures
            final(destination).well_formed(),
            final(destination).source() == self.source(),
            final(destination).next_source_id == self.next_source_id,
            final(destination).pending_frames == self.pending_frames,
            final(destination).pending_end_upper_bound == self.pending_end_upper_bound,
            final(destination).initialized == self.initialized,
            final(destination).generation == self.generation,
            final(destination).force_reanchor == self.force_reanchor,
            final(destination).enqueue_count == self.enqueue_count,
            final(destination).settled_consumed == old(destination).settled_consumed,
            final(destination).attached == old(destination).attached,
    {
        destination.queue.clear();
        let mut i: usize = 0;
        while i < self.queue.len()
            invariant
                i <= self.queue@.len(),
                destination.queue@.len() == i,
                forall|k: int| 0 <= k < i ==> (#[trigger] destination.queue@[k])@ == self.queue@[k]@,
                destination.settled_consumed == old(destination).settled_consumed,
                destination.attached == old(destination).attached,
            decreases self.queue@.len() - i,
        {
            destination.queue.push_back(self.queue[i].share());
            i += 1;
        }
        destination.current = match &self.current {
            Some(entry) => Some(entry.share()),
            None => None,
        };
        destination.next_source_id = self.next_source_id;
        destination.retired_through = self.retired_through;
        destination.pending_frames = self.pending_frames;
        destination.pending_end_upper_bound = self.pending_end_upper_bound;
        destination.index = self.index;
        destination.cursor_us = self.cursor_us;
        destination.cursor_remainder = self.cursor_remainder;
        destination.initialized = self.initialized;
        destination.generation = self.generation;
        destination.force_reanchor = self.force_reanchor;
        destination.enqueue_count = self.enqueue_count;
        assert(destination.source().pending =~= self.source().pending);
    }

    /// The place of an identity in playback order.
    fn place_of(&self, id: u64) -> (place: usize)
        requires
            self.source().order().len() <= usize::MAX,
        ensures
            place == first_of(self.source().order(), id),
    {
        let ghost order = self.source().order();
        let ghost pending = self.source().pending;
        let mut before: usize = 0;
        match &self.current {
            Some(entry) => {
                if entry.source_id == id {
                    return 0;
                }
                before = 1;
                assert(order.skip(1) =~= pending);
            },
            None => {},
        }
        let mut i: usize = 0;
        assert(pending.skip(0) =~= pending);
        while i < self.queue.len()
            invariant
                i <= self.queue@.len(),
                order == self.source().order(),
                pending == self.source().pending,
                before + pending.len() == order.len(),
                order.len() <= usize::MAX,
                first_of(order, id) == before + i + first_of(pending.skip(i as int), id),
            decreases self.queue@.len() - i,
        {
            assert(pending.skip(i as int)[0] == self.queue@[i as int]@);
            if self.queue[i].source_id == id {
                return before + i;
            }
            assert(pending.skip(i as int).skip(1) =~= pending.skip(i + 1));
            i += 1;
        }
        before + i
    }

    /// Whether a position belongs to this view of the source.
    pub fn holds_position(&self, position: SourcePosition) -> (belongs: bool)
        requires
            self.well_formed(),
            self.source().order().len() <= usize::MAX,
        ensures
            belongs == holds(self.source(), position),
    {
        let ghost s = self.source();
        let ghost order = s.order();
        let mut first: usize = 0;
        let mut kept_current: bool = self.current.is_some();
        let count: usize = self.buffer_count();
        if position.retired_through != self.retired_through {
            let place: usize = self.place_of(position.retired_through);
            if place >= count {
                return false;
            }
            first = place + 1;
            kept_current = false;
        }
        let ghost r = retired(s, position.retired_through);
        assert(r.order() =~= order.skip(first as int));
        if position.current == 0 {
            proof {
                if kept_current {
                    assert(order[0].id != 0);
                }
            }
            !kept_current
        } else if first >= count {
            false
        } else {
            assert(r.order()[0] == order[first as int]);
            let id: u64 = self.id_at(first);
            id == position.current
        }
    }

    /// The identity at a place in playback order.
    fn id_at(&self, place: usize) -> (id: u64)
        requires
            place < self.source().order().len(),
        ensures
            id == self.source().order()[place as int].id,
    {
        match &self.current {
            Some(entry) => if place == 0 {
                entry.source_id
            } else {
                self.queue[place - 1].source_id
            },
            None => self.queue[place].source_id,
        }
    }

    /// Move this view to an actual position, without playing anything again.
    pub fn reconcile_source(&mut self, position: SourcePosition)
        requires
            old(self).well_formed(),
            holds(old(self).source(), position),
        ensures
            final(self).well_formed(),
            final(self).source() == reconciled(old(self).source(), position),
            final(self).same_but_source(*old(self)),
    {
        let ghost s = self.source();
        let ghost order = s.order();
        let ghost mut count: int = 0;
        assert(order.skip(0) =~= order);
        if position.retired_through != self.retired_through {
            let ghost place = first_of(order, position.retired_through);
            proof {
                lemma_first_of(order, position.retired_through);
            }
            let mut found: bool = false;
            let ghost mut done: int = 0;
            while !found
                invariant
                    0 <= done <= place + 1,
                    place < order.len(),
                    found ==> done == place + 1,
                    !found ==> done <= place,
                    order[place].id == position.retired_through,
                    forall|i: int|
                        0 <= i < place ==> (#[trigger] order[i]).id != position.retired_through,
                    self.source().order() == order.skip(done),
                    done > 0 ==> self.current is None,
                    self.pending_frames == total_frames(self.source().pending),
                    self.same_but_source(*old(self)),
                    self.index == old(self).index,
                    self.cursor_us == old(self).cursor_us,
                    self.cursor_remainder == old(self).cursor_remainder,
                decreases place + 1 - done,
            {
                assert(self.source().order()[0] == order[done]);
                let ghost now = self.source();
                let front: Option<super::queue::QueuedAudioBuffer> = match self.current.take() {
                    Some(entry) => {
                        assert(self.source().pending =~= now.order().skip(1));
                        Some(entry)
                    },
                    None => self.pop_pending(),
                };
                assert(now.order().skip(1) =~= order.skip(done + 1));
                match front {
                    Some(entry) => {
                        assert(entry@ == order[done]);
                        found = entry.source_id == position.retired_through;
                    },
                    None => {
                        assert(false);
                    },
                }
                proof {
                    done = done + 1;
                }
            }
            self.retired_through = position.retired_through;
            proof {
                count = place + 1;
            }
            assert(self.source().pending =~= order.skip(place + 1));
        }
        let ghost r = self.source();
        assert(r == retired(s, position.retired_through));
        if position.current != 0 && self.current.is_none() {
            self.current = self.pop_pending();
        }
        assert(self.source() == entered_source(r, position.current));
        self.index = position.index;
        self.cursor_us = position.cursor_us;
        self.cursor_remainder = position.cursor_remainder;
        proof {
            assert(self.source().order() =~= order.skip(count));
            lemma_follows_well_formed(*old(self), *self, count);
        }
    }

    /// Fill a window with the next frames of this view.
    pub fn prepare_window(
        &mut self,
        window: &mut Window,
        epoch: u64,
        source_base: u64,
        channels: usize,
        sample_rate: u32,
    )
        requires
            old(self).well_formed(),
            channels > 0,
            sample_rate > 0,
            old(window).pcm@.len() == old(window).frames@.len() * channels,
        ensures
            final(self).well_formed(),
            final(self).same_but_source(*old(self)),
            final(self).source() == source_after(
                old(self).source(),
                requests_made(*final(window)),
                channels as int,
                sample_rate as int,
            ),
            fills(
                old(self).source(),
                *old(window),
                *final(window),
                channels as int,
                sample_rate as int,
            ),
            final(window).epoch == epoch,
            final(window).source_base == source_base,
            final(window).cursor_before == if old(self).initialized {
                Some(old(self).cursor_us)
            } else {
                None
            },
    {
        let ghost s = self.source();
        let ghost c = channels as int;
        let ghost rate = sample_rate as int;
        let ghost blank = *window;
        window.epoch = epoch;
        window.source_base = source_base;
        window.cursor_before = if self.initialized {
            Some(self.cursor_us)
        } else {
            None
        };
        window.valid = 0;
        window.skipped_tail = None;
        let size: usize = window.frames.len();
        let ghost head = *window;
        assert(window.pcm@.skip(0) =~= blank.pcm@.skip(0));
        let mut index: usize = 0;
        while index < size
            invariant_except_break
                window.skipped_tail is None,
                self.source() == source_after(s, index as int, c, rate),
            invariant
                c == channels,
                rate == sample_rate,
                channels > 0,
                sample_rate > 0,
                size == blank.frames@.len(),
                blank.pcm@.len() == size * channels,
                self.well_formed(),
                self.same_but_source(*old(self)),
                0 <= index <= size,
                window.valid == index,
                window.sized(size as int, c),
                window.epoch == head.epoch,
                window.source_base == head.source_base,
                window.cursor_before == head.cursor_before,
                forall|k: int|
                    0 <= k < index ==> next_frame(source_after(s, k, c, rate), c, rate) == Some(
                        #[trigger] chunk(window.pcm@, k, c),
                    ),
                forall|k: int|
                    0 <= k < index ==> #[trigger] window.frames@[k] == frame_between(
                        source_after(s, k, c, rate),
                        source_after(s, k + 1, c, rate),
                        c,
                    ),
                forall|k: int|
                    index <= k < size ==> #[trigger] window.frames@[k] == blank.frames@[k],
                window.pcm@.skip(index * c) == blank.pcm@.skip(index * c),
            ensures
                self.source() == source_after(
                    s,
                    if index < size {
                        index + 1
                    } else {
                        index as int
                    },
                    c,
                    rate,
                ),
                index < size ==> next_frame(source_after(s, index as int, c, rate), c, rate)
                    is None,
                window.skipped_tail == if index < size && source_after(
                    s,
                    index + 1,
                    c,
                    rate,
                ).retired_through != source_after(s, index as int, c, rate).retired_through {
                    Some(
                        frame_between(
                            source_after(s, index as int, c, rate),
                            source_after(s, index + 1, c, rate),
                            c,
                        ),
                    )
                } else {
                    None::<Frame>
                },
            decreases size - index,
        {
            let ghost previous = *self;
            let ghost here = self.source();
            let ghost pcm = window.pcm@;
            proof {
                lemma_chunk_bounds(index as int, size as int, c);
            }
            let before: SourcePosition = self.source_position();
            let remaining: usize = self.left_samples() / channels;
            let samples: usize = window.pcm.len();
            assert(index * c + c <= samples);
            let (earlier, rest) = window.pcm.as_mut_slice().split_at_mut(index * channels);
            let (destination, later) = rest.split_at_mut(channels);
            let consumed_one: bool = self.consume_next_frame(
                channels,
                sample_rate,
                Some(destination),
            );
            proof {
                let count = lemma_consumed_follows(here, c, rate);
                lemma_follows_well_formed(previous, *self, count);
            }
            let frame = Frame {
                before_current: before.current,
                before_index: before.index,
                requires_epoch: remaining == 0,
                position: self.source_position(),
            };
            assert(self.source() == source_after(s, index + 1, c, rate));
            assert(frame == frame_between(here, self.source(), c));
            assert(window.pcm@.take(index * c) =~= pcm.take(index * c));
            assert(window.pcm@.skip(index * c + c) =~= pcm.skip(index * c + c));
            proof {
                lemma_chunk_write(pcm, window.pcm@, index as int, c, size as int);
            }
            if !consumed_one {
                assert(window.pcm@ =~= pcm);
                if frame.position.retired_through != before.retired_through {
                    window.skipped_tail = Some(frame);
                }
                break;
            }
            proof {
                assert(Some(chunk(window.pcm@, index as int, c)) == next_frame(here, c, rate));
                assert(window.pcm@.skip((index + 1) * c) =~= blank.pcm@.skip((index + 1) * c)) by {
                    assert(pcm.skip(index * c).skip(c) =~= pcm.skip(index * c + c));
                    assert(blank.pcm@.skip(index * c).skip(c) =~= blank.pcm@.skip(index * c + c));
                }
            }
            window.frames.set(index, frame);
            window.valid = window.valid + 1;
            index += 1;
        }
    }
}

} // verus!
