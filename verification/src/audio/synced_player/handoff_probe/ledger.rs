//! What a ledger does for its scope, told of the source that it holds before and after.
use super::admission::{
    committed_from, counted_up, found_of, reanchored, PreparationKey, SourceLedger,
};
use super::timeline::checkpoint::Snapshot;
use super::timeline::Preparation;
use crate::audio::synced_player::ingress::control::Notice;
use crate::audio::synced_player::ingress::ControlGate;
use crate::audio::synced_player::playback::{
    a_queued_buffer_replaces_what_it_clashes_with, clashes,
};
use crate::audio::synced_player::preparation::{holds, source_after};
use crate::audio::synced_player::queue::{in_order, next_frame, Entry, QueuedAudioBuffer, Source};
use crate::audio::synced_player::source::{queued, Admission, Pace};
use crate::audio::{AudioBuffer, EnqueueOutcome, RendererOperationOutcome};
use std::sync::atomic::AtomicU64;
use std::sync::Arc;
use vstd::prelude::*;

verus! {

/// A ledger begins with nothing queued and nothing settled, and numbers its buffers from one.
pub proof fn a_ledger_begins_empty(progress: Arc<AtomicU64>, ledger: Option<SourceLedger>)
    requires
        call_ensures(SourceLedger::new, (progress,), ledger),
    ensures
        ledger matches Some(l) && {
            &&& l.source.cursor.source().order().len() == 0
            &&& l.next_source_id == 1
            &&& l.settled == 0
            &&& l.publication is None
            &&& l.limits.frames() == 32 && l.limits.buffers() == 8 && l.limits.chunk() == 16
        },
{
}

/// What is not settled yet is what was consumed since; a count that goes back tells nothing.
pub proof fn what_is_unsettled_was_consumed_since(
    ledger: SourceLedger,
    actual: u64,
    frames: Option<usize>,
)
    requires
        call_ensures(SourceLedger::unsettled, (&ledger, actual), frames),
    ensures
        frames matches Some(n) ==> ledger.settled + n == actual,
        frames is None ==> actual < ledger.settled || actual - ledger.settled > usize::MAX,
{
}

/// A ledger consumes what was consumed since it last settled: one request for each frame, and only
/// where its source has them all. It has settled them then.
pub proof fn a_ledger_consumes_up_to_a_count(
    ledger: &mut SourceLedger,
    actual: u64,
    delta: Option<usize>,
)
    requires
        call_ensures(SourceLedger::consume_to, (ledger, actual), delta),
    ensures
        delta matches Some(frames) ==> {
            &&& old(ledger).settled + frames == actual
            &&& final(ledger).settled == actual
            &&& final(ledger).source.cursor.source() == source_after(
                old(ledger).source.cursor.source(),
                frames as int,
                old(ledger).source.channels as int,
                old(ledger).source.rate as int,
            )
            &&& forall|i: int|
                0 <= i < frames ==> next_frame(
                    #[trigger] old(ledger).source_played(i),
                    old(ledger).source.channels as int,
                    old(ledger).source.rate as int,
                ) is Some
        },
        delta is None ==> final(ledger).settled == old(ledger).settled,
        final(ledger).next_source_id == old(ledger).next_source_id,
        final(ledger).limits == old(ledger).limits,
{
}

/// Where a buffer was queued into a source: it stands once among what is pending, under an
/// identity, with its time and samples, and replaces what it clashes with.
pub open spec fn stands_in(before: Source, after: Source, buffer: AudioBuffer, id: u64, at: int) -> bool {
    &&& 0 <= at < after.pending.len()
    &&& after.current == before.current && after.index == before.index
    &&& after.pending[at].id == id
    &&& after.pending[at].timestamp == buffer.timestamp
    &&& after.pending[at].samples == buffer.samples@
    &&& after.pending.remove(at) == before.pending.filter(
        |e: Entry| !clashes(e, after.pending[at]),
    )
    &&& forall|i: int| 0 <= i < at ==> (#[trigger] after.pending[i]).timestamp <= buffer.timestamp
    &&& forall|i: int|
        at < i < after.pending.len() ==> (#[trigger] after.pending[i]).timestamp > buffer.timestamp
}

proof fn lemma_stands_in(before: SourceLedger, after: SourceLedger, buffer: AudioBuffer)
    requires
        in_order(before.source.cursor.source().pending),
        after.source.cursor.source() == before.source.cursor.source_with(
            QueuedAudioBuffer { source_id: before.next_source_id, buffer }@,
        ),
    ensures
        exists|at: int| #[trigger]
            stands_in(
                before.source.cursor.source(),
                after.source.cursor.source(),
                buffer,
                before.next_source_id,
                at,
            ),
{
    let new = QueuedAudioBuffer { source_id: before.next_source_id, buffer }@;
    let at = a_queued_buffer_replaces_what_it_clashes_with(
        before.source.cursor.source().pending,
        new,
    );
    assert(after.source.cursor.source().pending[at] == new);
    assert(stands_in(
        before.source.cursor.source(),
        after.source.cursor.source(),
        buffer,
        before.next_source_id,
        at,
    ));
}

/// A buffer that a ledger accepts is queued under the next identity and takes it; the answer tells
/// how many buffers are queued then. One that is not accepted is not queued and takes none; a retry
/// hands it back.
pub proof fn a_ledger_queues_what_it_accepts<F: FnOnce()>(
    ledger: &mut SourceLedger,
    buffer: AudioBuffer,
    gate: &ControlGate,
    after_accounting: F,
    result: Result<EnqueueOutcome, AudioBuffer>,
)
    requires
        old(ledger).well_formed(),
        call_ensures(
            SourceLedger::try_enqueue::<F>,
            (ledger, buffer, gate, after_accounting),
            result,
        ),
    ensures
        result matches Ok(EnqueueOutcome::Accepted { queued_frames, queued_buffers }) ==> {
            &&& 0 < buffer.frame_count() <= old(ledger).owner.limits().chunk()
            &&& buffer.format.channels == old(ledger).source.channels
            &&& buffer.format.sample_rate == old(ledger).source.rate
            &&& final(ledger).next_source_id == old(ledger).next_source_id + 1
            &&& queued_buffers == final(ledger).source.cursor.source().order().len()
            &&& exists|between: SourceLedger|
                {
                    &&& #[trigger] old(ledger).plays_on(between.source.cursor.source())
                    &&& final(ledger).settled == between.settled
                    &&& final(ledger).source.cursor.source()
                        == between.source.cursor.source_with(
                        QueuedAudioBuffer { source_id: old(ledger).next_source_id, buffer }@,
                    )
                    &&& in_order(between.source.cursor.source().pending) ==> exists|at: int|
                        #[trigger]
                        stands_in(
                            between.source.cursor.source(),
                            final(ledger).source.cursor.source(),
                            buffer,
                            old(ledger).next_source_id,
                            at,
                        )
                }
        },
        !(result matches Ok(EnqueueOutcome::Accepted { .. })) ==> {
            &&& final(ledger).next_source_id == old(ledger).next_source_id
            &&& old(ledger).plays_on(final(ledger).source.cursor.source())
        },
        result matches Err(back) ==> back == buffer,
{
    let (found, between) = choose|found: Admission, between: SourceLedger| #[trigger]
        found_of(found, *gate, *old(ledger), between, buffer) && found.concludes(buffer, result)
            && if found.next_step() is Push {
            super::admission::taken_in(between, *final(ledger), buffer)
        } else {
            *final(ledger) == between
        };
    assert(old(ledger).plays_on(between.source.cursor.source()));
    if found.next_step() is Push {
        if in_order(between.source.cursor.source().pending) {
            lemma_stands_in(between, *final(ledger), buffer);
        }
    }
}

/// A ledger whose timeline is moved has its cursor at the time that was asked for, and nothing of
/// its source is lost. Where it is not moved, the source is played on at most.
pub proof fn a_moved_timeline_is_at_its_target(
    ledger: &mut SourceLedger,
    gate: &ControlGate,
    cursor_us: i64,
    result: Result<(), ()>,
)
    requires
        call_ensures(SourceLedger::try_reanchor, (ledger, gate, cursor_us), result),
    ensures
        result is Ok ==> final(ledger).source.cursor.source().cursor_us == cursor_us
            && final(ledger).source.cursor.source().cursor_remainder == 0 && exists|
            between: SourceLedger,
        |
            {
                &&& #[trigger] old(ledger).plays_on(between.source.cursor.source())
                &&& final(ledger).source.cursor.source().order()
                    == between.source.cursor.source().order()
                &&& final(ledger).source.cursor.source().index
                    == between.source.cursor.source().index
            },
        result is Err ==> old(ledger).plays_on(final(ledger).source.cursor.source()),
        final(ledger).next_source_id == old(ledger).next_source_id,
{
    if result is Ok {
        let between = choose|between: SourceLedger| #[trigger]
            committed_from(*gate, *old(ledger), between, Notice::Reanchored)
                && between.same_but_settled(*old(ledger)) && old(ledger).plays_on(
                between.source.cursor.source(),
            ) && reanchored(between, *final(ledger), cursor_us);
        assert(old(ledger).plays_on(between.source.cursor.source()));
        assert(final(ledger).source.cursor.source().order()
            == between.source.cursor.source().order());
    }
}

/// The same where the time is asked for: it is the time that was answered.
pub proof fn a_timeline_is_moved_to_what_was_answered<F: FnOnce() -> Option<i64>>(
    ledger: &mut SourceLedger,
    gate: &ControlGate,
    target_now: F,
    result: Result<i64, ()>,
)
    requires
        call_ensures(SourceLedger::try_reanchor_with::<F>, (ledger, gate, target_now), result),
    ensures
        result matches Ok(cursor) ==> call_ensures(target_now, (), Some(cursor))
            && final(ledger).source.cursor.source().cursor_us == cursor
            && final(ledger).source.cursor.source().cursor_remainder == 0,
        result is Err ==> old(ledger).plays_on(final(ledger).source.cursor.source()),
        final(ledger).next_source_id == old(ledger).next_source_id,
{
}

/// A ledger that is cleared holds nothing and begins its output anew; its identities go on. One that
/// is not cleared is played on at most.
pub proof fn a_cleared_ledger_holds_nothing(
    ledger: &mut SourceLedger,
    gate: &ControlGate,
    result: Result<RendererOperationOutcome, ()>,
)
    requires
        call_ensures(SourceLedger::try_clear, (ledger, gate), result),
    ensures
        result == Ok::<RendererOperationOutcome, ()>(RendererOperationOutcome::Applied) ==> {
            &&& final(ledger).source.cursor.source().pending.len() == 0
            &&& final(ledger).source.cursor.source().current is None
            &&& !final(ledger).source.cursor.initialized
            &&& final(ledger).source.phase().output_frames == 0
            &&& forall|c: int|
                0 <= c < final(ledger).source.phase().last.len()
                    ==> #[trigger] final(ledger).source.phase().last[c] == 0
            &&& final(ledger).source.phase().schedule.insert_every_n_frames == 0
            &&& final(ledger).source.phase().schedule.drop_every_n_frames == 0
            &&& final(ledger).source.phase().counters.insert == 0
            &&& final(ledger).source.phase().counters.drop == 0
        },
        result != Ok::<RendererOperationOutcome, ()>(RendererOperationOutcome::Applied)
            ==> old(ledger).plays_on(final(ledger).source.cursor.source()),
        final(ledger).next_source_id == old(ledger).next_source_id,
        final(ledger).limits == old(ledger).limits,
{
    if result == Ok::<RendererOperationOutcome, ()>(RendererOperationOutcome::Applied) {
        let s = final(ledger).source.cursor.source();
        assert(s.order().len() == 0);
    }
}

/// A version of a preparation is named by the identities, by what is settled and by what control
/// showed, and a preparation that is handed out with it holds what the ledger holds.
pub proof fn a_preparation_is_of_its_version(
    ledger: &mut SourceLedger,
    gate: &ControlGate,
    result: Result<(PreparationKey, Preparation), ()>,
)
    requires
        call_ensures(SourceLedger::preparation_snapshot, (ledger, gate), result),
    ensures
        result matches Ok(made) ==> {
            &&& made.0.next_source_id == final(ledger).next_source_id
            &&& made.0.settled == final(ledger).settled
            &&& !made.0.view.says().active
            &&& made.1.cursor.source() == final(ledger).source.cursor.source()
            &&& made.1.channels == final(ledger).source.channels
            &&& made.1.rate == final(ledger).source.rate
            &&& made.1.phase() == final(ledger).source.phase()
            &&& gate.is_confirmed(made.0.view, true)
        },
        final(ledger).next_source_id == old(ledger).next_source_id,
{
}

/// A ledger with a publication that goes to a position tells the owner the frames that were consumed
/// since it last settled, and the frames and buffers that are queued then; it succeeds exactly where
/// the owner took that over, and has settled them then.
pub proof fn a_ledger_tells_what_was_consumed<F: FnOnce(usize, usize, usize) -> bool>(
    ledger: &mut SourceLedger,
    found: Pace,
    actual: Option<&Snapshot<'_>>,
    tell: F,
    ok: bool,
)
    requires
        old(ledger).publication is Some,
        call_ensures(SourceLedger::follow::<F>, (ledger, found, actual, tell), ok),
    ensures
        !found.observed ==> !ok,
        found.observed && !found.counted ==> (ok <==> found.consumed == old(ledger).settled
            && found.stood),
        found.observed && found.counted && old(ledger).countable() && final(ledger).countable()
            ==> (found.read matches Some((position, frames)) ==> holds(
            old(ledger).source.cursor.source(),
            position,
        ) && old(ledger).settled <= frames && frames - old(ledger).settled <= usize::MAX ==> {
            let left = queued(
                final(ledger).source.cursor.source(),
                final(ledger).source.cursor.pending_frames,
                final(ledger).source.channels as int,
            );
            &&& call_ensures(
                tell,
                ((frames - old(ledger).settled) as usize, left.0 as usize, left.1 as usize),
                ok,
            )
            &&& ok ==> final(ledger).settled == frames
            &&& final(ledger).source.cursor.source().cursor_us == position.cursor_us
            &&& final(ledger).source.cursor.source().index == position.index
        }),
        !ok ==> final(ledger).settled == old(ledger).settled,
{
}

/// A ledger without a publication tells the owner the frames that were consumed since it last settled,
/// where there are any, and has settled them either way.
pub proof fn a_ledger_tells_what_is_new<F: FnOnce(usize, usize, usize) -> bool>(
    ledger: &mut SourceLedger,
    actual: u64,
    tell: F,
    done: bool,
)
    requires
        call_ensures(SourceLedger::catch_up::<F>, (ledger, actual, tell), done),
    ensures
        old(ledger).owed(actual) matches Some(frames) ==> {
            let left = queued(
                final(ledger).source.cursor.source(),
                final(ledger).source.cursor.pending_frames,
                final(ledger).source.channels as int,
            );
            &&& frames == actual - old(ledger).settled
            &&& final(ledger).settled == actual
            &&& frames == 0 ==> done
            &&& frames > 0 && final(ledger).countable() ==> call_ensures(
                tell,
                (frames, left.0 as usize, left.1 as usize),
                done,
            )
        },
        actual < old(ledger).settled ==> !done && final(ledger).settled == old(ledger).settled,
{
}

/// A ledger can queue a buffer of its own format wherever there is an identity left for it, and the
/// frames and buffers that are queued then can be counted; it cannot queue one of another format.
pub proof fn a_ledger_can_queue_its_own_format(ledger: SourceLedger, buffer: AudioBuffer)
    requires
        ledger.next_source_id < u64::MAX,
        queued(
            ledger.source.cursor.source(),
            ledger.source.cursor.pending_frames,
            ledger.source.channels as int,
        ).0 + buffer.frame_count() <= usize::MAX,
        ledger.source.cursor.source().order().len() < usize::MAX,
    ensures
        ledger.can_push(buffer) <==> buffer.format.channels == ledger.source.channels
            && buffer.format.sample_rate == ledger.source.rate,
{
}

/// A ledger without a publication answers a buffer once it has caught up with what was counted, and uses
/// an identity for every answer. One that is accepted is queued under it, and the answer tells how many
/// buffers are queued then; one that is not is not queued.
pub proof fn a_ledger_answers_once_it_has_caught_up(
    ledger: &mut SourceLedger,
    buffer: AudioBuffer,
    outcome: Option<EnqueueOutcome>,
)
    requires
        call_ensures(SourceLedger::enqueue, (ledger, buffer), outcome),
    ensures
        outcome is Some ==> final(ledger).next_source_id == old(ledger).next_source_id + 1,
        outcome is None ==> final(ledger).next_source_id == old(ledger).next_source_id,
        exists|between: SourceLedger, done: bool|
            {
                &&& #[trigger] counted_up(*old(ledger), between, done)
                &&& outcome is Some <==> done && between.can_push(buffer)
                &&& outcome matches Some(EnqueueOutcome::Accepted { queued_frames, queued_buffers })
                    ==> {
                    &&& 0 < buffer.frame_count() <= old(ledger).owner.limits().chunk()
                    &&& queued_buffers == final(ledger).source.cursor.source().order().len()
                    &&& final(ledger).source.cursor.source() == between.source.cursor.source_with(
                        QueuedAudioBuffer { source_id: old(ledger).next_source_id, buffer }@,
                    )
                    &&& final(ledger).settled == between.settled
                }
                &&& !(outcome matches Some(EnqueueOutcome::Accepted { .. }))
                    ==> final(ledger).source.cursor.source() == between.source.cursor.source()
            },
{
    let (between, done) = choose|between: SourceLedger, done: bool| #[trigger]
        counted_up(*old(ledger), between, done) && between.same_but_settled(*old(ledger))
            && super::admission::handed_in(between, *final(ledger), done, buffer, outcome);
    assert(counted_up(*old(ledger), between, done));
}

} // verus!
