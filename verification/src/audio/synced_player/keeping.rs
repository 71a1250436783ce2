//! What the worker prepares and publishes, told of the source that it keeps a view of.
use super::ingress::GateView;
use super::preparation::{fills, source_after, Window};
use super::queue::{next_frame, PlaybackQueue, Source};
use super::requests::{given_up, holds_what_is_new, lemma_extended, lemma_settled};
use super::source::{a_reanchor_goes_to_its_target, settled};
use super::windows::{a_window_holds_what_the_source_gives, holds_frame};
use super::worker::{
    anchored_to, asked_for, kept_up_from, view_extended, view_kept, window_made, windows_made,
    AnchorRequest, KeepUpFound, Worker,
};
use vstd::prelude::*;

verus! {

/// The frames that a worker asked its view for while it filled these windows: all that they hold, and
/// one more for each that could not be filled.
pub open spec fn frames_asked(stream: Seq<Window>, from: int, to: int) -> int
    decreases to - from,
{
    if to <= from {
        0
    } else {
        frames_asked(stream, from, to - 1) + stream[to - 1].valid + if stream[to - 1].valid
            < stream[to - 1].frames@.len() {
            1int
        } else {
            0
        }
    }
}

proof fn lemma_asked(stream: Seq<Window>, from: int, to: int)
    ensures
        asked_for(stream, from, to) == frames_asked(stream, from, to),
    decreases to - from,
{
    if to > from {
        lemma_asked(stream, from, to - 1);
    }
}

/// A window holds, frame by frame and in all channels, what a source gives after so many frames.
pub open spec fn holds_from(s: Source, asked: int, window: Window, channels: int, rate: int) -> bool {
    let here = source_after(s, asked, channels, rate);
    &&& window.valid <= window.frames@.len()
    &&& forall|k: int|
        0 <= k < window.valid ==> #[trigger] holds_frame(here, window, k, channels, rate)
}

/// Each window that is made and published holds what the view gives next, behind everything that the
/// windows before it asked for, and tells the time at which it begins.
pub proof fn published_windows_hold_the_source_in_order(
    worker: &mut Worker,
    use_reserved_credit: bool,
    published: usize,
)
    requires
        old(worker).channels > 0,
        call_ensures(Worker::prepare_windows, (worker, use_reserved_credit), published),
    ensures
        forall|i: int|
            old(worker).first_made() <= i < old(worker).producer.outgoing().sent() + published
                ==> holds_from(
                old(worker).private.source(),
                frames_asked(
                    old(worker).producer.outgoing().stream(),
                    old(worker).first_made(),
                    i,
                ),
                #[trigger] old(worker).producer.outgoing().stream()[i],
                old(worker).channels as int,
                old(worker).sample_rate as int,
            ),
        old(worker).private.initialized ==> forall|i: int|
            old(worker).first_made() <= i < old(worker).producer.outgoing().sent() + published
                ==> (#[trigger] old(worker).producer.outgoing().stream()[i]).cursor_before == Some(
                source_after(
                    old(worker).private.source(),
                    frames_asked(
                        old(worker).producer.outgoing().stream(),
                        old(worker).first_made(),
                        i,
                    ),
                    old(worker).channels as int,
                    old(worker).sample_rate as int,
                ).cursor_us,
            ),
        final(worker).state.generation == old(worker).state.generation,
        final(worker).state.timeline == old(worker).state.timeline,
        final(worker).state.snapshot == old(worker).state.snapshot,
        final(worker).state.applied_delay_us == old(worker).state.applied_delay_us,
{
    let w = *old(worker);
    let stream = w.producer.outgoing().stream();
    let from = w.first_made();
    let to = w.producer.outgoing().sent() + published;
    let channels = w.channels as int;
    let rate = w.sample_rate as int;
    assert(windows_made(w, stream, from, to));
    assert forall|i: int| from <= i < to implies holds_from(
        w.private.source(),
        frames_asked(stream, from, i),
        #[trigger] stream[i],
        channels,
        rate,
    ) && (w.private.initialized ==> stream[i].cursor_before == Some(
        source_after(w.private.source(), frames_asked(stream, from, i), channels, rate).cursor_us,
    )) by {
        lemma_asked(stream, from, i);
        let asked = asked_for(stream, from, i);
        assert(window_made(w, asked, stream[i]));
        let here = source_after(w.private.source(), asked, channels, rate);
        let blank = choose|blank: Window| #[trigger]
            fills(here, blank, stream[i], channels, rate);
        a_window_holds_what_the_source_gives(here, blank, stream[i], channels, rate);
    }
}

/// How a view was kept: left as it is, brought up to date by what is new while it goes on where it
/// is, or made anew from all that the queue holds, from where the device is.
pub open spec fn kept_in_one_way(
    before: Worker,
    after: Worker,
    between: PlaybackQueue,
    queue: PlaybackQueue,
    epoch: u64,
) -> bool {
    ||| after.state == before.state
    ||| {
        &&& after.state.snapshot matches Some(key) && key.next_source_id == queue.next_source_id
        &&& after.private.source() == queue.source()
        &&& after.state.prepared_base == queue.settled_consumed
        &&& !after.state.pending_window
    }
    ||| {
        &&& after.state.snapshot matches Some(key) && key.next_source_id == queue.next_source_id
            && key.epoch == epoch
        &&& before.state.snapshot matches Some(key) && key.epoch == epoch
        &&& holds_what_is_new(
            before.private.source().pending,
            before.private.next_source_id,
            queue.source().pending,
            queue.source().pending.len() as int,
            after.private.source().pending,
        )
        &&& after.private.source().current == before.private.source().current
        &&& after.private.source().index == before.private.source().index
        &&& after.private.source().cursor_us == before.private.source().cursor_us
        &&& after.state.prepared_base == before.state.prepared_base
        &&& after.state.pending_window == before.state.pending_window
        &&& queue.settled_consumed <= before.state.prepared_base
    }
}

proof fn lemma_kept(
    before: Worker,
    after: Worker,
    between: PlaybackQueue,
    queue: PlaybackQueue,
    epoch: u64,
)
    requires
        before.well_formed(),
        queue.well_formed(),
        queue.next_source_id < u64::MAX,
        view_kept(before, after, between, queue, epoch),
        queue.next_source_id == between.next_source_id,
    ensures
        kept_in_one_way(before, after, between, queue, epoch),
{
    if view_extended(before, after, between, queue) {
        let all = queue.source().pending;
        assert forall|i: int| 0 <= i < all.len() implies (#[trigger] all[i]).id < u64::MAX by {
            let order = queue.source().order();
            if queue.source().current is Some {
                assert(order[i + 1] == all[i]);
            } else {
                assert(order[i] == all[i]);
            }
        }
        lemma_extended(
            before.private.source().pending,
            before.private.next_source_id,
            all,
            all.len() as int,
        );
    }
}

/// A view is kept in one of three ways, under the version that control shows; a view that is not of
/// that version, or that lacks a buffer, does not stay in use as if it were.
pub proof fn refreshing_keeps_a_view_of_the_queue(worker: &mut Worker, queue: &mut PlaybackQueue)
    requires
        old(worker).well_formed(),
        final(queue).next_source_id < u64::MAX,
        call_ensures(Worker::refresh, (worker, queue), ()),
    ensures
        exists|view: GateView| #[trigger]
            old(worker).publication.control.shows(view) && kept_in_one_way(
                *old(worker),
                *final(worker),
                *old(queue),
                *final(queue),
                view.says().epoch,
            ),
        old(worker).state.snapshot is None && old(queue).force_reanchor
            ==> final(worker).state.snapshot is None,
        final(queue).next_source_id == old(queue).next_source_id,
        final(queue).force_reanchor == old(queue).force_reanchor,
        final(worker).state.timeline == old(worker).state.timeline,
        final(worker).state.generation == old(worker).state.generation,
        final(worker).producer == old(worker).producer,
{
    let view = choose|view: GateView| #[trigger]
        old(worker).publication.control.shows(view) && view_kept(
            *old(worker),
            *final(worker),
            *old(queue),
            *final(queue),
            view.says().epoch,
        );
    lemma_kept(*old(worker), *final(worker), *old(queue), *final(queue), view.says().epoch);
}

/// A worker that keeps up anchors where it was asked to: at the target itself, unless the queue asked
/// for it and the target is not playable, then later. The anchor applies the delay that was asked
/// for, is counted once, and answers what was asked. A queue that has not begun is left alone, and
/// nothing is anchored for it.
pub proof fn keeping_up_anchors_at_the_target<F: FnOnce(AnchorRequest) -> Option<i64>>(
    worker: &mut Worker,
    queue: &mut PlaybackQueue,
    delay_us: u64,
    target: F,
    anchored: Option<AnchorRequest>,
)
    requires
        call_ensures(Worker::keep_up::<F>, (worker, queue, delay_us, target), anchored),
    ensures
        !old(queue).initialized ==> anchored is None && *final(queue) == *old(queue),
        anchored matches Some(request) ==> {
            &&& request.explicit == old(queue).force_reanchor
            &&& old(worker).producer.credits().len() > 0
            &&& final(worker).state.applied_delay_us == delay_us
            &&& final(worker).state.pending_reanchor is None
            &&& request.explicit ==> final(worker).state.correction_reanchors
                == old(worker).state.correction_reanchors && (old(worker).state.startup_reanchors
                < u64::MAX ==> final(worker).state.startup_reanchors
                == old(worker).state.startup_reanchors + 1)
            &&& !request.explicit ==> final(worker).state.startup_reanchors
                == old(worker).state.startup_reanchors && (old(
                worker,
            ).state.correction_reanchors < u64::MAX ==> final(worker).state.correction_reanchors
                == old(worker).state.correction_reanchors + 1)
            &&& exists|between: PlaybackQueue, time: i64|
                {
                    &&& #[trigger] call_ensures(target, (request,), Some(time))
                    &&& #[trigger] anchored_to(
                        *old(worker),
                        *old(queue),
                        between,
                        time,
                        request.explicit,
                    )
                    &&& !request.explicit ==> between.source().cursor_us == time
                    &&& between.source().cursor_us >= time
                    &&& between.source().cursor_remainder == 0
                    &&& exists|count: int| #[trigger]
                        given_up(old(queue).source(), between.source(), count)
                }
        },
        anchored is None ==> final(worker).state.applied_delay_us
            == old(worker).state.applied_delay_us && final(worker).state.startup_reanchors
            == old(worker).state.startup_reanchors && final(worker).state.correction_reanchors
            == old(worker).state.correction_reanchors,
{
    let (found, mid, between) = choose|found: KeepUpFound, mid: Worker, between: PlaybackQueue|
        #[trigger]
        kept_up_from(
            *old(worker),
            *final(worker),
            *old(queue),
            *final(queue),
            delay_us,
            anchored,
            found,
            mid,
            between,
        ) && (anchored matches Some(request) ==> call_ensures(
            target,
            (request,),
            Some(found.target),
        ));
    if old(queue).initialized {
        lemma_kept_state(
            mid,
            *final(worker),
            between,
            *final(queue),
            found.refreshed.says().epoch,
        );
    }
    if let Some(request) = anchored {
        assert(anchored_to(*old(worker), *old(queue), between, found.target, request.explicit));
        lemma_anchored(*old(worker), *old(queue), between, found.target, request.explicit);
    }
}

proof fn lemma_kept_state(
    before: Worker,
    after: Worker,
    between: PlaybackQueue,
    queue: PlaybackQueue,
    epoch: u64,
)
    requires
        view_kept(before, after, between, queue, epoch),
    ensures
        after.state.kept_up(before.state),
{
}

proof fn lemma_anchored(
    worker: Worker,
    before: PlaybackQueue,
    after: PlaybackQueue,
    target: i64,
    explicit: bool,
)
    requires
        anchored_to(worker, before, after, target, explicit),
    ensures
        !explicit ==> after.source().cursor_us == target,
        after.source().cursor_us >= target,
        after.source().cursor_remainder == 0,
        exists|count: int| #[trigger] given_up(before.source(), after.source(), count),
{
    let between = choose|between: PlaybackQueue| #[trigger]
        super::source::moved_from(
            *worker.publication,
            worker.owner,
            worker.scope,
            before,
            between,
        ) && settled(before.source(), between.source()) && (super::source::anchor(
            between.source(),
            target,
            explicit,
        ) matches Some(cursor) && after.source() == (Source {
            cursor_us: cursor,
            cursor_remainder: 0,
            ..between.source()
        }));
    a_reanchor_goes_to_its_target(between.source(), target, explicit);
    let count = lemma_settled(before.source(), between.source());
    assert(after.source().order() == between.source().order());
    assert(given_up(before.source(), after.source(), count));
}

/// Windows are published as long as there is a view, a window is free beside the one that is kept back,
/// the device has room, and something waits or is left to prepare. They are no more than four at once.
pub proof fn windows_are_published_while_they_can_be(
    worker: &mut Worker,
    use_reserved_credit: bool,
    published: usize,
)
    requires
        call_ensures(Worker::prepare_windows, (worker, use_reserved_credit), published),
    ensures
        ({
            let w = *old(worker);
            let builder = w.producer.building();
            w.state.snapshot is Some && w.producer.outgoing().room() > 0
                && w.producer.credits().len() >= (if use_reserved_credit {
                1int
            } else {
                2
            }) && (w.state.pending_window || (builder.frames@.len() > 0 && builder.pcm@.len()
                == builder.frames@.len() * w.channels && w.state.prepared_base
                + builder.frames@.len() <= u64::MAX && next_frame(
                w.private.source(),
                w.channels as int,
                w.sample_rate as int,
            ) is Some)) ==> published > 0
        }),
        ({
            let w = *final(worker);
            let builder = w.producer.building();
            published < 4 ==> {
                ||| w.state.snapshot is None
                ||| w.producer.outgoing().room() <= 0
                ||| w.producer.credits().len() < (if use_reserved_credit && published == 0 {
                    1int
                } else {
                    2
                })
                ||| !w.state.pending_window && !(builder.frames@.len() > 0 && builder.pcm@.len()
                    == builder.frames@.len() * w.channels && w.state.prepared_base
                    + builder.frames@.len() <= u64::MAX && next_frame(
                    w.private.source(),
                    w.channels as int,
                    w.sample_rate as int,
                ) is Some)
            }
        }),
{
}

/// A worker that takes over another generation forgets its view of the old one; in the same one it
/// stays as it is.
pub proof fn a_worker_follows_the_generation_of_its_queue(
    worker: &mut Worker,
    queue: &PlaybackQueue,
    changed: bool,
)
    requires
        call_ensures(Worker::adopt, (worker, queue), changed),
    ensures
        changed <==> queue.generation != old(worker).state.generation,
        !changed ==> *final(worker) == *old(worker),
        changed ==> {
            &&& final(worker).state.generation == queue.generation
            &&& final(worker).state.snapshot is None
            &&& !final(worker).state.pending_window
            &&& final(worker).state.latest is None
            &&& final(worker).state.pending_reanchor is None
            &&& final(worker).private.source().order().len() == 0
            &&& exists|view: GateView| #[trigger]
                old(worker).publication.control.shows(view) && final(worker).state.timeline
                    == view.says().epoch
        },
        final(worker).state.startup_reanchors == old(worker).state.startup_reanchors,
        final(worker).state.correction_reanchors == old(worker).state.correction_reanchors,
        final(worker).producer == old(worker).producer,
{
}

/// Windows that the device gives back are free again, all that are ready.
pub proof fn a_worker_takes_back_what_is_returned(worker: &mut Worker, reclaimed: usize)
    requires
        call_ensures(Worker::reclaim, (worker,), reclaimed),
    ensures
        final(worker).producer.credits().len() == old(worker).producer.credits().len() + reclaimed,
        reclaimed < old(worker).producer.bound() ==> reclaimed >= old(
            worker,
        ).producer.incoming().ready(),
        final(worker).state == old(worker).state,
        final(worker).private == old(worker).private,
{
}

} // verus!
