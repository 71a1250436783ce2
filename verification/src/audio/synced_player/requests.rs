//! What a queue does for its scope, told of the buffers that it holds before and after.
use super::ingress::checkpoint::SourcePosition;
use super::ingress::{GateView, Observation};
use super::playback::{a_queued_buffer_replaces_what_it_clashes_with, clashes};
use super::preparation::{
    entered_source, first_of, holds, lemma_first_of, reconciled, retired,
};
use super::queue::{
    in_order, pushed, pushing_keeps_order, total_frames, Entry, PlaybackQueue, Source,
};
use super::source::{
    accepted_into, admission_step, countable, extended_by, follows, found_of, next_after, queued,
    settled, Admission, AdmissionStep, OwnerAnswer, Pace, Publication,
};
use crate::audio::{
    AudioBuffer, EnqueueOutcome, PlayerScope, RendererOperationOutcome, RendererOwner,
    TerminalOutcome,
};
use vstd::prelude::*;

verus! {

/// What is left of a source where so many of its buffers were given up from the front: of what is
/// pending then the order is that of before, to the end.
pub open spec fn given_up(before: Source, after: Source, count: int) -> bool {
    &&& 0 <= count <= before.order().len()
    &&& after.order() == before.order().skip(count)
}

pub(crate) proof fn lemma_settled(before: Source, after: Source) -> (count: int)
    requires
        settled(before, after),
    ensures
        given_up(before, after, count),
        in_order(before.pending) ==> in_order(after.pending),
{
    if after == before {
        assert(after.order() =~= before.order().skip(0));
        0
    } else {
        let position = choose|position: SourcePosition| #[trigger]
            holds(before, position) && after == reconciled(before, position);
        let through = position.retired_through;
        let middle = retired(before, through);
        lemma_first_of(before.order(), through);
        let count = if through == before.retired_through {
            0int
        } else {
            first_of(before.order(), through) + 1
        };
        assert(middle.order() =~= before.order().skip(count));
        let entered = entered_source(middle, position.current);
        assert(entered.order() =~= middle.order());
        assert(after.order() =~= before.order().skip(count));
        if in_order(before.pending) {
            let shift = before.pending.len() - after.pending.len();
            assert(after.pending =~= before.pending.skip(shift));
            assert forall|i: int, j: int| 0 <= i < j < after.pending.len() implies (
            #[trigger] after.pending[i]).timestamp <= (#[trigger] after.pending[j]).timestamp by {
                assert(after.pending[i] == before.pending[i + shift]);
                assert(after.pending[j] == before.pending[j + shift]);
            }
            assert forall|i: int, j: int| 0 <= i < j < after.pending.len() implies !(
            #[trigger] after.pending[i]).overlaps(#[trigger] after.pending[j]) by {
                assert(after.pending[i] == before.pending[i + shift]);
                assert(after.pending[j] == before.pending[j + shift]);
            }
        }
        count
    }
}

/// A queue that catches up with the device gives up buffers from the front and no others. Where the
/// device told a position, the cursor and what is current are as that position says, and what was
/// consumed is what was told with it; where it told none, nothing changes, and what was consumed is
/// what was counted.
pub proof fn catching_up_goes_where_the_device_is<'a>(
    queue: &mut PlaybackQueue,
    publication: &'a Publication,
    owner: &RendererOwner,
    scope: PlayerScope,
    result: Result<Observation<'a>, ()>,
)
    requires
        call_ensures(PlaybackQueue::reconcile_actual, (queue, publication, owner, scope), result),
    ensures
        exists|count: int| #[trigger] given_up(old(queue).source(), final(queue).source(), count),
        final(queue).next_source_id == old(queue).next_source_id,
        final(queue).initialized == old(queue).initialized,
        final(queue).force_reanchor == old(queue).force_reanchor,
        final(queue).generation == old(queue).generation,
        result is Ok ==> exists|pace: Pace|
            {
                &&& #[trigger] pace.counted ==> (pace.read matches Some((position, frames)) && {
                    &&& final(queue).settled_consumed == frames
                    &&& final(queue).source().cursor_us == position.cursor_us
                    &&& final(queue).source().cursor_remainder == position.cursor_remainder
                    &&& final(queue).source().index == position.index
                    &&& final(queue).source().retired_through == position.retired_through
                    &&& pace.told
                })
                &&& !pace.counted ==> {
                    &&& *final(queue) == *old(queue)
                    &&& pace.consumed == final(queue).settled_consumed
                    &&& pace.stood
                    &&& super::shared::got_u64(*publication.consumed, pace.consumed)
                }
                &&& owner.is_checked(scope, false)
                &&& publication.checkpoint.reads_validity(pace.counted)
            },
{
    let count = lemma_settled(old(queue).source(), final(queue).source());
    assert(given_up(old(queue).source(), final(queue).source(), count));
    if let Ok(observed) = result {
        assert(follows(
            *publication,
            *owner,
            scope,
            *old(queue),
            *final(queue),
            Some(observed.seen()),
            true,
        ));
    }
}

/// A clear that applies forgets every source of the queue and begins a new generation; any other
/// answer leaves it as it is.
pub proof fn clearing_for_a_scope_forgets_its_source(
    queue: &mut PlaybackQueue,
    publication: &Publication,
    owner: &RendererOwner,
    scope: PlayerScope,
    result: Result<RendererOperationOutcome, ()>,
)
    requires
        call_ensures(PlaybackQueue::clear_with_actual, (queue, publication, owner, scope), result),
    ensures
        result == Ok::<RendererOperationOutcome, ()>(RendererOperationOutcome::Applied) ==> {
            &&& final(queue).source().pending.len() == 0
            &&& final(queue).source().current is None
            &&& !final(queue).initialized && !final(queue).force_reanchor
            &&& final(queue).next_source_id == old(queue).next_source_id
            &&& final(queue).retired_through == old(queue).retired_through
            &&& final(queue).settled_consumed == old(queue).settled_consumed
            &&& old(queue).generation < u64::MAX ==> final(queue).generation
                == old(queue).generation + 1
            &&& exists|view: GateView| #[trigger]
                publication.control.shows_again(view) && publication.checkpoint.invalidates(
                    view.says().epoch,
                )
        },
        result != Ok::<RendererOperationOutcome, ()>(RendererOperationOutcome::Applied)
            ==> *final(queue) == *old(queue),
{
}

/// A teardown that wins forgets every source of the queue; any other leaves it as it is.
pub proof fn tearing_down_forgets_the_source(
    queue: &mut PlaybackQueue,
    owner: &RendererOwner,
    scope: PlayerScope,
    outcome: TerminalOutcome,
)
    requires
        call_ensures(PlaybackQueue::teardown_with_actual, (queue, owner, scope), outcome),
    ensures
        outcome is Won ==> final(queue).source().pending.len() == 0
            && final(queue).source().current is None && !final(queue).initialized,
        !(outcome is Won) ==> *final(queue) == *old(queue),
        owner.tears_down(scope, outcome),
{
}

/// How many frames and buffers are queued: the whole frames that are left of the current buffer and
/// all frames of those that are pending, and each buffer once.
pub proof fn queued_frames_and_buffers_are_counted(
    queue: PlaybackQueue,
    channels: usize,
    counts: Option<(usize, usize)>,
)
    requires
        queue.well_formed(),
        channels > 0,
        call_ensures(PlaybackQueue::counts, (&queue, channels), counts),
    ensures
        counts matches Some(c) ==> {
            &&& c.0 == (match queue.source().current {
                Some(entry) => if queue.source().index < entry.samples.len() {
                    (entry.samples.len() - queue.source().index) / channels as int
                } else {
                    0
                },
                None => 0,
            }) + total_frames(queue.source().pending)
            &&& c.1 == queue.source().pending.len() + if queue.source().current is Some {
                1int
            } else {
                0
            }
        },
{
    if queue.source().current is None {
        assert(0int / channels as int == 0) by (nonlinear_arith)
            requires
                channels > 0,
        ;
    } else {
        assert(0int / channels as int == 0) by (nonlinear_arith)
            requires
                channels > 0,
        ;
    }
}

/// A buffer stands at a place among what is pending, under an identity, and replaces what it clashes
/// with; the first one of a generation places the cursor.
pub open spec fn stands_at(
    before: Source,
    after: Source,
    buffer: AudioBuffer,
    id: u64,
    begun: bool,
    at: int,
) -> bool {
    &&& 0 <= at < after.pending.len()
    &&& after.current == before.current && after.index == before.index
    &&& after.pending[at].id == id
    &&& after.pending[at].timestamp == buffer.timestamp
    &&& after.pending[at].samples == buffer.samples@
    &&& after.pending.remove(at) == before.pending.filter(
        |e: Entry| !clashes(e, after.pending[at]),
    )
    &&& forall|i: int| 0 <= i < at ==> (#[trigger] after.pending[i]).timestamp <= buffer.timestamp
    &&& forall|i: int|
        at < i < after.pending.len() ==> (#[trigger] after.pending[i]).timestamp > buffer.timestamp
    &&& after.cursor_us == if begun {
        before.cursor_us
    } else {
        buffer.timestamp
    }
}

proof fn lemma_stands(
    before: PlaybackQueue,
    after: PlaybackQueue,
    buffer: AudioBuffer,
    channels: usize,
) -> (at: int)
    requires
        in_order(before.source().pending),
        accepted_into(before, after, buffer, channels),
    ensures
        stands_at(
            before.source(),
            after.source(),
            buffer,
            before.next_source_id,
            before.initialized,
            at,
        ),
{
    let new = before.entry_of(buffer);
    let at = a_queued_buffer_replaces_what_it_clashes_with(before.source().pending, new);
    assert(after.source().pending[at] == new);
    at
}

/// A buffer that is accepted stands once among what is pending, as the next source, with its own time
/// and samples, behind all that are not later; what it clashes with is replaced and all else that
/// the device has not consumed stays in its order. The answer tells how much is queued then. A
/// buffer that is not accepted is not in the queue: an answer other than a retry is that of the
/// owner, and a retry hands the buffer back.
pub proof fn an_accepted_buffer_stands_in_its_place(
    queue: &mut PlaybackQueue,
    publication: &Publication,
    owner: &RendererOwner,
    scope: PlayerScope,
    buffer: AudioBuffer,
    frames: usize,
    result: Result<EnqueueOutcome, AudioBuffer>,
)
    requires
        old(queue).well_formed(),
        publication.channels > 0,
        call_ensures(
            PlaybackQueue::try_enqueue_prepared,
            (queue, publication, owner, scope, buffer, frames),
            result,
        ),
    ensures
        result matches Ok(EnqueueOutcome::Accepted { queued_frames, queued_buffers }) ==> {
            &&& 0 < frames <= owner.limits().chunk()
            &&& queued_buffers == final(queue).source().order().len()
            &&& final(queue).initialized
            &&& final(queue).next_source_id == old(queue).next_source_id + 1
            &&& exists|count: int, between: Source, at: int| #[trigger]
                given_up(old(queue).source(), between, count) && #[trigger] stands_at(
                    between,
                    final(queue).source(),
                    buffer,
                    old(queue).next_source_id,
                    old(queue).initialized,
                    at,
                )
        },
        !(result matches Ok(EnqueueOutcome::Accepted { .. })) ==> {
            &&& final(queue).next_source_id == old(queue).next_source_id
            &&& exists|count: int| #[trigger]
                given_up(old(queue).source(), final(queue).source(), count)
        },
        result matches Err(back) ==> back == buffer,
{
    let (found, between) = choose|found: Admission, between: PlaybackQueue| #[trigger]
        found_of(found, *old(queue), between, *publication, *owner, scope, buffer, frames)
            && found.concludes(buffer, result) && if found.next_step() is Push {
            &&& accepted_into(between, *final(queue), buffer, publication.channels)
            &&& result matches Ok(EnqueueOutcome::Accepted { queued_frames, queued_buffers })
                && owner.takes_in(scope, frames, queued_frames, queued_buffers)
        } else {
            *final(queue) == between
        };
    let count = lemma_settled(old(queue).source(), between.source());
    assert(given_up(old(queue).source(), between.source(), count));
    if found.next_step() is Push {
        let at = lemma_stands(between, *final(queue), buffer, publication.channels);
        assert(stands_at(
            between.source(),
            final(queue).source(),
            buffer,
            old(queue).next_source_id,
            old(queue).initialized,
            at,
        ));
    }
}

/// Whether a buffer of a source is new to a view: it comes after those that the view knew, and after
/// all before it.
pub open spec fn is_new_at(next: u64, all: Seq<Entry>, i: int) -> bool {
    &&& 0 <= i < all.len()
    &&& all[i].id >= next
    &&& forall|j: int| 0 <= j < i ==> (#[trigger] all[j]).id < all[i].id
}

proof fn lemma_next_after(next: u64, all: Seq<Entry>, count: int)
    requires
        0 <= count <= all.len(),
        forall|i: int| 0 <= i < all.len() ==> (#[trigger] all[i]).id < u64::MAX,
    ensures
        next_after(next, all, count) >= next,
        forall|i: int| 0 <= i < count ==> (#[trigger] all[i]).id < next_after(next, all, count),
        next_after(next, all, count) == next || exists|i: int|
            0 <= i < count && (#[trigger] all[i]).id + 1 == next_after(next, all, count),
    decreases count,
{
    if count > 0 {
        lemma_next_after(next, all, count - 1);
        let before = next_after(next, all, count - 1);
        if all[count - 1].id >= before {
            assert(all[count - 1].id + 1 == next_after(next, all, count));
        }
    }
}

pub(crate) proof fn lemma_pushed_holds(pending: Seq<Entry>, new: Entry, e: Entry)
    requires
        in_order(pending),
    ensures
        pushed(pending, new).contains(e) <==> e == new || (pending.contains(e) && !clashes(e, new)),
{
    let at = a_queued_buffer_replaces_what_it_clashes_with(pending, new);
    let all = pushed(pending, new);
    let apart = |x: Entry| !clashes(x, new);
    let rest = pending.filter(apart);
    assert(all =~= rest.insert(at, new));
    assert(all[at] == new);
    if pending.contains(e) && !clashes(e, new) {
        let k = choose|k: int| 0 <= k < pending.len() && pending[k] == e;
        pending.lemma_filter_contains(apart, k);
        let i = choose|i: int| 0 <= i < rest.len() && rest[i] == e;
        if i < at {
            assert(all[i] == e);
        } else {
            assert(all[i + 1] == e);
        }
    }
    if all.contains(e) && e != new {
        let i = choose|i: int| 0 <= i < all.len() && all[i] == e;
        let k = if i < at {
            i
        } else {
            i - 1
        };
        assert(rest[k] == e);
        pending.lemma_filter_pred(apart, k);
        pending.lemma_filter_contains_rev(apart, e);
    }
}

/// Of so many buffers from here on, none that is new clashes with this one.
pub open spec fn is_unreplaced(
    e: Entry,
    next: u64,
    all: Seq<Entry>,
    from: int,
    count: int,
) -> bool {
    forall|j: int|
        from <= j < count && is_new_at(next, all, j) ==> !clashes(e, #[trigger] all[j])
}

/// A view holds of a source what it knew of it and what is new, but for what clashes with something
/// newer.
pub open spec fn holds_what_is_new(
    known: Seq<Entry>,
    next: u64,
    all: Seq<Entry>,
    count: int,
    view: Seq<Entry>,
) -> bool {
    &&& forall|e: Entry| #[trigger]
        view.contains(e) ==> known.contains(e) || exists|i: int|
            0 <= i < count && #[trigger] is_new_at(next, all, i) && all[i] == e
    &&& forall|i: int|
        0 <= i < count && is_new_at(next, all, i) && #[trigger] is_unreplaced(
            all[i],
            next,
            all,
            i + 1,
            count,
        ) ==> view.contains(all[i])
    &&& forall|e: Entry| #[trigger]
        known.contains(e) && is_unreplaced(e, next, all, 0, count) ==> view.contains(e)
}

pub(crate) proof fn lemma_extended(known: Seq<Entry>, next: u64, all: Seq<Entry>, count: int)
    requires
        0 <= count <= all.len(),
        in_order(known),
        forall|i: int| 0 <= i < all.len() ==> (#[trigger] all[i]).id < u64::MAX,
    ensures
        in_order(extended_by(known, next, all, count)),
        holds_what_is_new(known, next, all, count, extended_by(known, next, all, count)),
    decreases count,
{
    if count > 0 {
        lemma_extended(known, next, all, count - 1);
        lemma_next_after(next, all, count - 1);
        let before = extended_by(known, next, all, count - 1);
        let after = extended_by(known, next, all, count);
        let last = all[count - 1];
        let taken = last.id >= next_after(next, all, count - 1);
        assert(taken <==> is_new_at(next, all, count - 1));
        if taken {
            pushing_keeps_order(before, last);
            assert forall|e: Entry| #[trigger] after.contains(e) implies known.contains(e)
                || exists|i: int|
                0 <= i < count && #[trigger] is_new_at(next, all, i) && all[i] == e by {
                lemma_pushed_holds(before, last, e);
                if e == last {
                    assert(is_new_at(next, all, count - 1));
                }
            }
            assert forall|i: int|
                0 <= i < count && is_new_at(next, all, i) && #[trigger] is_unreplaced(
                    all[i],
                    next,
                    all,
                    i + 1,
                    count,
                ) implies after.contains(all[i]) by {
                lemma_pushed_holds(before, last, all[i]);
                if i < count - 1 {
                    assert(!clashes(all[i], all[count - 1]));
                    assert(is_unreplaced(all[i], next, all, i + 1, count - 1));
                }
            }
            assert forall|e: Entry| #[trigger]
                known.contains(e) && is_unreplaced(
                    e,
                    next,
                    all,
                    0,
                    count,
                ) implies after.contains(e) by {
                lemma_pushed_holds(before, last, e);
                assert(!clashes(e, all[count - 1]));
                assert(is_unreplaced(e, next, all, 0, count - 1));
            }
        } else {
            assert forall|i: int|
                0 <= i < count && is_new_at(next, all, i) && #[trigger] is_unreplaced(
                    all[i],
                    next,
                    all,
                    i + 1,
                    count,
                ) implies after.contains(all[i]) by {
                assert(is_unreplaced(all[i], next, all, i + 1, count - 1));
            }
            assert forall|e: Entry| #[trigger]
                known.contains(e) && is_unreplaced(
                    e,
                    next,
                    all,
                    0,
                    count,
                ) implies after.contains(e) by {
                assert(is_unreplaced(e, next, all, 0, count - 1));
            }
        }
    }
}

/// A view of a source is brought up to date by every buffer that is new to it: what it holds then is
/// what it held and what is new, each with its own time and samples, but for what a newer one
/// replaces. Where it is being played, and where the cursor is, does not change.
pub proof fn a_view_is_extended_by_what_is_new(
    queue: PlaybackQueue,
    destination: &mut PlaybackQueue,
    extended: bool,
)
    requires
        old(destination).well_formed(),
        forall|i: int|
            0 <= i < queue.source().pending.len() ==> (#[trigger] queue.source().pending[i]).id
                < u64::MAX,
        call_ensures(PlaybackQueue::refresh_preparation_into, (&queue, destination), extended),
    ensures
        extended ==> holds_what_is_new(
            old(destination).source().pending,
            old(destination).next_source_id,
            queue.source().pending,
            queue.source().pending.len() as int,
            final(destination).source().pending,
        ),
        !extended ==> exists|i: int|
            0 <= i < queue.source().pending.len() && #[trigger] holds_what_is_new(
                old(destination).source().pending,
                old(destination).next_source_id,
                queue.source().pending,
                i,
                final(destination).source().pending,
            ),
        final(destination).source().current == old(destination).source().current,
        final(destination).source().index == old(destination).source().index,
        final(destination).source().cursor_us == old(destination).source().cursor_us,
        final(destination).source().cursor_remainder == old(destination).source().cursor_remainder,
        in_order(final(destination).source().pending),
{
    let known = old(destination).source().pending;
    let next = old(destination).next_source_id;
    let all = queue.source().pending;
    if extended {
        lemma_extended(known, next, all, all.len() as int);
    } else {
        let i = choose|i: int|
            0 <= i < all.len() && final(destination).source() == (Source {
                pending: #[trigger] extended_by(known, next, all, i),
                ..old(destination).source()
            });
        lemma_extended(known, next, all, i);
        assert(holds_what_is_new(known, next, all, i, final(destination).source().pending));
    }
}

/// What is done next for a buffer that is handed in, case by case: the owner of a closed scope is
/// asked, and its refusal answered; where the queue has not caught up, what was decided did not
/// stand, or the buffer cannot be counted, it is handed back; it is queued where all is well and the
/// owner admits it.
pub proof fn a_buffer_is_handled_step_by_step(found: Admission, step: AdmissionStep)
    requires
        call_ensures(admission_step, (found,), step),
    ensures
        step == AdmissionStep::Push <==> !found.closed && found.caught_up && found.stood == Some(
            true,
        ) && found.pushable && found.answer == Some(OwnerAnswer::Admits),
        step is Replace <==> !found.closed && found.caught_up && found.stood is None && found.fits
            && !found.appends,
        step is Validate <==> !found.closed && found.caught_up && found.stood is None && !(
        found.fits && !found.appends),
        step is Ask <==> found.answer is None && (found.closed || (found.caught_up && found.stood
            == Some(true) && found.pushable)),
        step matches AdmissionStep::Answer { outcome } ==> found.answer == Some(
            OwnerAnswer::Refuses { outcome },
        ),
        step is Answer <==> (found.answer matches Some(OwnerAnswer::Refuses { .. })) && (
        found.closed || (found.caught_up && found.stood == Some(true) && found.pushable)),
        step is Retry <==> {
            ||| found.closed && found.answer == Some(OwnerAnswer::Admits)
            ||| !found.closed && !found.caught_up
            ||| !found.closed && found.caught_up && found.stood == Some(false)
            ||| !found.closed && found.caught_up && found.stood == Some(true) && !found.pushable
        },
{
}

/// A buffer that only extends what is pending begins no earlier than the last one and ends no other:
/// it stands at the end then, and everything before it stays.
pub proof fn an_appended_buffer_stands_at_the_end(
    queue: PlaybackQueue,
    buffer: AudioBuffer,
    suffix: bool,
)
    requires
        queue.well_formed(),
        call_ensures(PlaybackQueue::appends, (&queue, &buffer), suffix),
    ensures
        queue.source().pending.len() == 0 ==> suffix,
        suffix ==> forall|i: int|
            0 <= i < queue.source().pending.len() ==> (
            #[trigger] queue.source().pending[i]).timestamp <= buffer.timestamp
                && queue.source().pending[i].end_us() <= buffer.timestamp,
        suffix ==> pushed(queue.source().pending, queue.entry_of(buffer))
            == queue.source().pending.push(queue.entry_of(buffer)),
        !suffix ==> queue.source().pending.len() > 0 && (buffer.timestamp
            < queue.source().pending.last().timestamp || (queue.pending_end_upper_bound matches Some(
            bound,
        ) && buffer.timestamp < bound)),
{
    let pending = queue.source().pending;
    if pending.len() > 0 {
        assert(pending[pending.len() - 1] == pending.last());
    }
}

/// A buffer has as many whole frames as its samples make, one sample for each channel, and none
/// without channels.
pub proof fn a_buffer_has_its_whole_frames(buffer: AudioBuffer, frames: usize)
    requires
        call_ensures(AudioBuffer::frames, (&buffer,), frames),
    ensures
        buffer.format.channels == 0 ==> frames == 0,
        buffer.format.channels > 0 ==> frames * buffer.format.channels <= buffer.samples@.len() < (
        frames + 1) * buffer.format.channels,
{
    let channels = buffer.format.channels as int;
    let length = buffer.samples@.len() as int;
    if channels > 0 {
        assert((length / channels) * channels <= length < (length / channels + 1) * channels)
            by (nonlinear_arith)
            requires
                channels > 0,
                length >= 0,
        ;
    }
}

/// A buffer that is shared has the same time, samples and format.
pub proof fn a_shared_buffer_is_the_same(buffer: AudioBuffer, copy: AudioBuffer)
    requires
        call_ensures(AudioBuffer::share, (&buffer,), copy),
    ensures
        copy.timestamp == buffer.timestamp,
        copy.samples@ == buffer.samples@,
        copy.format.channels == buffer.format.channels,
        copy.format.sample_rate == buffer.format.sample_rate,
        copy.format.bit_depth == buffer.format.bit_depth,
        copy.format.codec == buffer.format.codec,
{
}

/// A copy of a source holds the same buffers, current and pending, at the same place and time.
pub proof fn a_copied_source_is_the_same(queue: PlaybackQueue, destination: &mut PlaybackQueue)
    requires
        call_ensures(PlaybackQueue::copy_source_into, (&queue, destination), ()),
    ensures
        final(destination).source().order() == queue.source().order(),
        final(destination).source().current == queue.source().current,
        final(destination).source().index == queue.source().index,
        final(destination).source().cursor_us == queue.source().cursor_us,
        final(destination).source().cursor_remainder == queue.source().cursor_remainder,
        final(destination).source().retired_through == queue.source().retired_through,
        final(destination).next_source_id == queue.next_source_id,
        final(destination).initialized == queue.initialized,
        final(destination).generation == queue.generation,
        final(destination).settled_consumed == old(destination).settled_consumed,
{
}

/// A view that is handed out holds all that the queue holds, and is named by the version that was
/// confirmed, by the next identity and by what is settled. Without one the destination is as it was,
/// or empty.
pub proof fn a_view_holds_all_that_the_queue_holds(
    queue: &mut PlaybackQueue,
    publication: &Publication,
    owner: &RendererOwner,
    scope: PlayerScope,
    destination: &mut PlaybackQueue,
    result: Result<(u64, u64, u64), ()>,
)
    requires
        call_ensures(
            PlaybackQueue::preparation_snapshot,
            (queue, publication, owner, scope, destination),
            result,
        ),
    ensures
        result matches Ok(key) ==> {
            &&& final(destination).source().order() == final(queue).source().order()
            &&& final(destination).source().cursor_us == final(queue).source().cursor_us
            &&& final(destination).source().index == final(queue).source().index
            &&& key.1 == final(queue).next_source_id
            &&& key.2 == final(queue).settled_consumed
            &&& exists|seen: GateView| #[trigger]
                publication.control.is_confirmed(seen, true) && key.0 == seen.says().epoch
        },
        result is Err ==> *final(destination) == *old(destination)
            || final(destination).source().order().len() == 0,
        exists|count: int| #[trigger]
            given_up(old(queue).source(), final(queue).source(), count),
        final(queue).next_source_id == old(queue).next_source_id,
{
    let count = lemma_settled(old(queue).source(), final(queue).source());
    assert(given_up(old(queue).source(), final(queue).source(), count));
}

/// A position tells where the source is: what is retired, what is current and how far, and the time.
pub proof fn a_position_tells_where_the_source_is(queue: PlaybackQueue, position: SourcePosition)
    requires
        call_ensures(PlaybackQueue::source_position, (&queue,), position),
    ensures
        position.retired_through == queue.source().retired_through,
        position.current == (match queue.source().current {
            Some(entry) => entry.id,
            None => 0,
        }),
        position.index == queue.source().index as usize,
        position.cursor_us == queue.source().cursor_us,
        position.cursor_remainder == queue.source().cursor_remainder,
{
}

/// A queue follows the device only in an open scope and under an observation. Where no position counts
/// it succeeds exactly where nothing was consumed since and the observation stood. Where one counts and
/// belongs to its source it goes there, and tells the owner what is queued then: the whole frames and
/// the buffers that are left. It succeeds exactly where the owner took that over.
pub proof fn following_tells_what_is_left<F: FnOnce(usize, usize) -> bool>(
    queue: &mut PlaybackQueue,
    found: Pace,
    channels: usize,
    tell: F,
    ok: bool,
)
    requires
        channels > 0,
        call_ensures(PlaybackQueue::follow::<F>, (queue, found, channels, tell), ok),
    ensures
        !found.open || !found.observed ==> !ok && *final(queue) == *old(queue),
        found.open && found.observed && !found.counted ==> *final(queue) == *old(queue) && (ok
            <==> found.consumed == old(queue).settled_consumed && found.stood),
        found.counted && found.read is None ==> !ok && *final(queue) == *old(queue),
        found.open && found.observed && found.counted ==> (found.read matches Some((
            position,
            frames,
        )) ==> {
            &&& !holds(old(queue).source(), position) ==> !ok && *final(queue) == *old(queue)
            &&& holds(old(queue).source(), position) && countable(*old(queue), channels) ==> {
                let left = queued(
                    final(queue).source(),
                    final(queue).pending_frames,
                    channels as int,
                );
                &&& final(queue).settled_consumed == frames
                &&& final(queue).source().cursor_us == position.cursor_us
                &&& final(queue).source().index == position.index
                &&& final(queue).source().retired_through == position.retired_through
                &&& left.0 <= usize::MAX && left.1 <= usize::MAX ==> call_ensures(
                    tell,
                    (left.0 as usize, left.1 as usize),
                    ok,
                )
                &&& left.0 > usize::MAX || left.1 > usize::MAX ==> !ok
            }
        }),
{
}

/// A buffer can be queued wherever there is an identity left for it, and the frames and buffers that are
/// queued then can be counted.
pub proof fn what_can_be_counted_can_be_queued(
    queue: PlaybackQueue,
    buffer: AudioBuffer,
    channels: int,
)
    requires
        channels > 0,
        queue.next_source_id < u64::MAX,
        queue.enqueue_count < u64::MAX,
        queued(queue.source(), queue.pending_frames, channels).0 + buffer.frame_count()
            <= usize::MAX,
        queue.source().order().len() < usize::MAX,
    ensures
        queue.can_push(buffer, channels),
{
}

} // verus!
