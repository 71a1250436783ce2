//! What the operations of the player do, told of what goes in and what comes out.
use super::callback::{
    a_callback_goes_by_the_last_timing_it_knows, a_callback_is_counted_as_it_begins, counts_on,
};
use super::device::{Device, Diagnostics, OutputState, Turn};
use super::handoff_probe::timeline::feedback::{followed, looked, PlanReading};
use super::ingress::checkpoint::{PublishedCheckpoint, SourcePosition};
use super::ingress::{CallbackGuard, GateView};
use super::playback::{
    a_queued_buffer_replaces_what_it_clashes_with, a_request_gets_the_next_frame,
    a_request_moves_the_source_by_one_frame, clashes, comes_next, is_over,
};
use super::preparation::{source_after, Window};
use super::queue::{
    is_playing_at, next_frame, the_first_playable_time_is_the_least, Entry, PlaybackQueue, Source,
};
use super::reader::{
    a_rendering_is_made_of_source_frames, a_rendering_keeps_its_plan_and_reports_where_it_began,
    composed, exchanged, renders, steps_of, Heard, Reached, Reader, Rendered, Standing,
};
use super::shared::{got_u64, put_u64};
use super::source::{a_reanchor_goes_to_its_target, Publication};
use super::transport::DeviceSide;
use super::windows::{a_window_holds_what_the_source_gives, holds_frame};
use super::worker::{
    AnchorRequest, DeviceEvent, FilteredError, TimingFacts, Worker, WorkerState,
};
use crate::audio::sync_correction::{
    next_cadence_step, step_at, CadenceCounters, CadenceStep, CorrectionSchedule,
};
use crate::audio::{AudioBuffer, PlayerScope, RendererOwner};
use crate::sync::raw_clock::instant_ns;
use std::sync::atomic::AtomicU64;
use vstd::prelude::*;

verus! {

/// A buffer that is queued gets the next identity and stands once among what is pending, with its
/// own time and samples, behind all that are not later and before all that are. What it clashes
/// with is replaced, everything else stays in its order, and what is being played is not touched.
/// The first buffer of a generation places the cursor at its time and asks for an anchor.
pub proof fn queueing_places_a_buffer(queue: &mut PlaybackQueue, buffer: AudioBuffer) -> (at: int)
    requires
        old(queue).well_formed(),
        call_ensures(PlaybackQueue::push, (queue, buffer), ()),
    ensures
        ({
            let before = old(queue).source();
            let after = final(queue).source();
            &&& 0 <= at < after.pending.len()
            &&& after.pending[at].id == old(queue).next_source_id
            &&& after.pending[at].timestamp == buffer.timestamp
            &&& after.pending[at].samples == buffer.samples@
            &&& after.pending[at].channels == buffer.format.channels
            &&& after.pending[at].rate == buffer.format.sample_rate
            &&& after.pending.remove(at) == before.pending.filter(
                |e: Entry| !clashes(e, after.pending[at]),
            )
            &&& forall|i: int|
                0 <= i < at ==> (#[trigger] after.pending[i]).timestamp <= buffer.timestamp
            &&& forall|i: int|
                at < i < after.pending.len() ==> (#[trigger] after.pending[i]).timestamp
                    > buffer.timestamp
            &&& after.current == before.current && after.index == before.index
            &&& after.retired_through == before.retired_through
            &&& old(queue).initialized ==> after.cursor_us == before.cursor_us
                && after.cursor_remainder == before.cursor_remainder
            &&& !old(queue).initialized ==> after.cursor_us == buffer.timestamp
                && after.cursor_remainder == 0 && final(queue).force_reanchor
            &&& old(queue).initialized ==> final(queue).force_reanchor == old(queue).force_reanchor
            &&& final(queue).initialized
            &&& final(queue).next_source_id == old(queue).next_source_id + 1
        }),
{
    let new = old(queue).entry_of(buffer);
    let at = a_queued_buffer_replaces_what_it_clashes_with(old(queue).source().pending, new);
    at
}

/// A request for a frame gets all channels of the next frame of the first buffer that has one, and
/// says whether it got any. Without one the destination stays as it is.
pub proof fn consuming_gets_the_next_frame(
    queue: &mut PlaybackQueue,
    channels: usize,
    sample_rate: u32,
    destination: Option<&mut [i32]>,
    got: bool,
) -> (found: (int, int))
    requires
        channels > 0,
        sample_rate > 0,
        old(queue).source().index % (channels as int) == 0,
        destination matches Some(d) ==> d@.len() == channels,
        call_ensures(
            PlaybackQueue::consume_next_frame,
            (queue, channels, sample_rate, destination),
            got,
        ),
    ensures
        ({
            let s = old(queue).source();
            let (at, frame) = found;
            &&& !got ==> forall|i: int|
                0 <= i < s.order().len() ==> #[trigger] is_over(
                    s,
                    i,
                    channels as int,
                    sample_rate as int,
                )
            &&& !got ==> (destination matches Some(d) ==> final(d)@ == d@)
            &&& got ==> {
                &&& 0 <= at < s.order().len()
                &&& forall|i: int|
                    0 <= i < at ==> #[trigger] is_over(s, i, channels as int, sample_rate as int)
                &&& comes_next(s, at, channels as int, sample_rate as int, frame)
                &&& destination matches Some(d) ==> forall|c: int|
                    0 <= c < channels ==> #[trigger] final(d)@[c] == s.order()[at].samples[frame
                        * channels + c]
            }
        }),
{
    a_request_gets_the_next_frame(
        old(queue).source(),
        channels as int,
        sample_rate as int,
    )
}

/// A request moves the source on by one frame, and what is settled and numbered stays.
pub proof fn consuming_moves_the_source_by_one_frame(
    queue: &mut PlaybackQueue,
    channels: usize,
    sample_rate: u32,
    destination: Option<&mut [i32]>,
    got: bool,
) -> (at: int)
    requires
        channels > 0,
        sample_rate > 0,
        call_ensures(
            PlaybackQueue::consume_next_frame,
            (queue, channels, sample_rate, destination),
            got,
        ),
    ensures
        ({
            let s = old(queue).source();
            let after = final(queue).source();
            &&& !got ==> after.order().len() == 0 && after.cursor_us == s.cursor_us
            &&& got ==> 0 <= at < s.order().len() && after.pending == s.order().skip(at + 1)
            &&& got && after.current is None ==> after.retired_through == s.order()[at].id
            &&& after.current matches Some(current) ==> got && current == s.order()[at]
            &&& final(queue).settled_consumed == old(queue).settled_consumed
            &&& final(queue).next_source_id == old(queue).next_source_id
            &&& final(queue).generation == old(queue).generation
        }),
{
    a_request_moves_the_source_by_one_frame(
        old(queue).source(),
        channels as int,
        sample_rate as int,
    )
}

/// A window is filled from where the source is, frame by frame; it says which version and which
/// frames it is for, and the source time that it begins with. The source is then behind what was
/// asked of it.
pub proof fn preparing_fills_a_window(
    queue: &mut PlaybackQueue,
    window: &mut Window,
    epoch: u64,
    source_base: u64,
    channels: usize,
    sample_rate: u32,
)
    requires
        channels > 0,
        call_ensures(
            PlaybackQueue::prepare_window,
            (queue, window, epoch, source_base, channels, sample_rate),
            (),
        ),
    ensures
        final(window).epoch == epoch,
        final(window).source_base == source_base,
        old(queue).initialized ==> final(window).cursor_before == Some(old(queue).cursor_us),
        !old(queue).initialized ==> final(window).cursor_before is None,
        final(window).valid <= final(window).frames@.len(),
        final(window).frames@.len() == old(window).frames@.len(),
        forall|k: int|
            0 <= k < final(window).valid ==> #[trigger] holds_frame(
                old(queue).source(),
                *final(window),
                k,
                channels as int,
                sample_rate as int,
            ),
        final(window).valid < final(window).frames@.len() ==> next_frame(
            source_after(
                old(queue).source(),
                final(window).valid as int,
                channels as int,
                sample_rate as int,
            ),
            channels as int,
            sample_rate as int,
        ) is None,
        final(queue).source() == source_after(
            old(queue).source(),
            final(window).valid + (if final(window).valid < final(window).frames@.len() {
                1int
            } else {
                0
            }),
            channels as int,
            sample_rate as int,
        ),
{
    a_window_holds_what_the_source_gives(
        old(queue).source(),
        *old(window),
        *final(window),
        channels as int,
        sample_rate as int,
    );
}

/// A measured frame drops exactly where the count of measured frames says, for ever: told of the
/// step that is taken with the counters that so many frames leave.
pub proof fn a_cadence_step_is_that_of_its_count(
    schedule: CorrectionSchedule,
    measured: bool,
    counters: CadenceCounters,
    next: (CadenceStep, CadenceCounters),
)
    requires
        call_ensures(next_cadence_step, (schedule, measured, counters), next),
    ensures
        !measured ==> next == (CadenceStep::Follow, counters),
        measured && schedule.drop_every_n_frames > 0 ==> (next.0 == CadenceStep::Skip
            <==> counters.drop <= 1),
        measured && schedule.drop_every_n_frames > 0 && counters.drop <= 1 ==> next.1.drop
            == schedule.drop_every_n_frames && next.1.insert == counters.insert,
        measured && schedule.drop_every_n_frames > 0 && counters.drop > 1 ==> next.1.drop
            == counters.drop - 1,
        schedule.drop_every_n_frames == 0 ==> next.0 != CadenceStep::Skip && next.1.drop
            == counters.drop,
        measured && next.0 != CadenceStep::Skip && schedule.insert_every_n_frames > 0 ==> (next.0
            == CadenceStep::Repeat <==> counters.insert <= 1),
        measured && next.0 == CadenceStep::Repeat ==> next.1.insert
            == schedule.insert_every_n_frames,
        measured && next.0 == CadenceStep::Follow && schedule.insert_every_n_frames > 0
            ==> next.1.insert == counters.insert - 1,
        schedule.insert_every_n_frames == 0 ==> next.0 != CadenceStep::Repeat && next.1.insert
            == counters.insert,
        next.0 == step_at(schedule, counters, 0) || !measured,
{
}

/// A rendering outputs whole source frames, repeats and silence, as its cadence and its windows
/// have it.
pub proof fn rendering_outputs_source_frames(
    reader: &mut Reader,
    pipe: &mut DeviceSide,
    view: GateView,
    started: Reached,
    output: &mut [i32],
    measured: bool,
    wanted: Option<CorrectionSchedule>,
    visible: &mut usize,
    result: (Rendered, Reached),
)
    requires
        old(reader)@.channels() > 0,
        old(output)@.len() as int % old(reader)@.channels() == 0,
        call_ensures(
            Reader::render_from,
            (reader, pipe, view, started, output, measured, wanted, visible),
            result,
        ),
    ensures
        final(output)@.len() == old(output)@.len(),
        exists|heard: Seq<Heard>, standings: Seq<Standing>, counters: CadenceCounters|
            #![trigger heard.len(), standings.len(), counters.drop]
            {
            let frames = final(output)@.len() as int / old(reader)@.channels();
            &&& composed(
                steps_of(final(reader)@.schedule, measured, counters, frames),
                heard,
                standings,
                old(pipe).coming(),
                *old(visible) as int,
                if view.says().reanchored {
                    view.says().epoch
                } else {
                    old(reader)@.minimum_epoch
                },
                if view.says().revoked {
                    Seq::new(old(reader)@.last.len(), |i: int| 0i32)
                } else {
                    old(reader)@.last
                },
                final(output)@,
            )
            &&& standings[0] == (Standing {
                at: started.consumed as int,
                inserted: 0,
                dropped: 0,
                missing: 0,
            })
            &&& standings[frames] == (Standing {
                at: result.1.consumed as int,
                inserted: result.0.inserted as int,
                dropped: result.0.dropped as int,
                missing: result.0.missing as int,
            })
        },
        result.0.consumed == result.1.consumed - started.consumed,
{
    let (heard, standings, counters) = a_rendering_is_made_of_source_frames(
        old(reader)@,
        final(reader)@,
        *old(pipe),
        *final(pipe),
        *old(visible),
        *final(visible),
        view,
        started,
        result.1,
        measured,
        wanted,
        final(output)@,
        result.0,
    );
    assert(heard.len() >= 0 && standings.len() >= 0 && counters.drop >= 0);
}

/// The same within a callback: what was heard begins with the frames that the progress told, and
/// the frames that were consumed are told then.
pub proof fn rendering_in_a_callback_outputs_source_frames(
    reader: &mut Reader,
    pipe: &mut DeviceSide,
    callback: &CallbackGuard<'_>,
    checkpoint: &PublishedCheckpoint,
    progress: &AtomicU64,
    output: &mut [i32],
    measured: bool,
    wanted: Option<CorrectionSchedule>,
    visible: &mut usize,
    rendered: Rendered,
)
    requires
        old(reader)@.channels() > 0,
        old(output)@.len() as int % old(reader)@.channels() == 0,
        call_ensures(
            Reader::render_with_budget,
            (reader, pipe, callback, checkpoint, progress, output, measured, wanted, visible),
            rendered,
        ),
    ensures
        exists|
            heard: Seq<Heard>,
            standings: Seq<Standing>,
            counters: CadenceCounters,
            view: GateView,
            started: Reached,
            reached: Reached,
        |
            #![trigger
                heard.len(),
                standings.len(),
                counters.drop,
                exchanged(*callback.of(), *checkpoint, *progress, view, started, reached, final(reader)@.position)
            ]
            {
            let frames = final(output)@.len() as int / old(reader)@.channels();
            &&& exchanged(
                *callback.of(),
                *checkpoint,
                *progress,
                view,
                started,
                reached,
                final(reader)@.position,
            )
            &&& composed(
                steps_of(final(reader)@.schedule, measured, counters, frames),
                heard,
                standings,
                old(pipe).coming(),
                *old(visible) as int,
                if view.says().reanchored {
                    view.says().epoch
                } else {
                    old(reader)@.minimum_epoch
                },
                if view.says().revoked {
                    Seq::new(old(reader)@.last.len(), |i: int| 0i32)
                } else {
                    old(reader)@.last
                },
                final(output)@,
            )
            &&& standings[0].at == started.consumed
            &&& standings[frames] == (Standing {
                at: reached.consumed as int,
                inserted: rendered.inserted as int,
                dropped: rendered.dropped as int,
                missing: rendered.missing as int,
            })
        },
{
    let (view, started, reached) = choose|view: GateView, started: Reached, reached: Reached|
        renders(
            old(reader)@,
            final(reader)@,
            *old(pipe),
            *final(pipe),
            *old(visible),
            *final(visible),
            view,
            started,
            reached,
            measured,
            wanted,
            final(output)@,
            rendered,
        ) && #[trigger] exchanged(
            *callback.of(),
            *checkpoint,
            *progress,
            view,
            started,
            reached,
            final(reader)@.position,
        );
    let (heard, standings, counters) = a_rendering_is_made_of_source_frames(
        old(reader)@,
        final(reader)@,
        *old(pipe),
        *final(pipe),
        *old(visible),
        *final(visible),
        view,
        started,
        reached,
        measured,
        wanted,
        final(output)@,
        rendered,
    );
    assert(heard.len() >= 0 && standings.len() >= 0 && counters.drop >= 0);
}

/// A rendering in a callback answers what control announces: a new timeline is acknowledged, and a
/// clear gives the current source up. It goes on from the frames that were counted, counts those that
/// it consumed, and publishes the position that it reached, if it has one, under the version that
/// stands.
pub proof fn rendering_in_a_callback_tells_where_it_is(
    reader: &mut Reader,
    pipe: &mut DeviceSide,
    callback: &CallbackGuard<'_>,
    checkpoint: &PublishedCheckpoint,
    progress: &AtomicU64,
    output: &mut [i32],
    measured: bool,
    wanted: Option<CorrectionSchedule>,
    visible: &mut usize,
    rendered: Rendered,
)
    requires
        old(reader)@.channels() > 0,
        old(output)@.len() as int % old(reader)@.channels() == 0,
        call_ensures(
            Reader::render_with_budget,
            (reader, pipe, callback, checkpoint, progress, output, measured, wanted, visible),
            rendered,
        ),
    ensures
        exists|view: GateView, from: u64, to: u64|
            {
                &&& #[trigger] callback.of().shows(view)
                &&& view.says().reanchored ==> callback.of().acknowledges()
                &&& view.says().revoked ==> callback.of().releases_current()
                &&& #[trigger] got_u64(*progress, from)
                &&& #[trigger] put_u64(*progress, to)
                &&& to == from + rendered.consumed
                &&& final(reader)@.position matches Some(position) ==> callback.of().makes_current(
                    position.current,
                ) && exists|later: GateView| #[trigger]
                    callback.of().shows(later) && checkpoint.writes(position, later.says().epoch)
                &&& final(reader)@.timeline == if view.says().revoked || view.says().reanchored {
                    view.says().epoch
                } else {
                    old(reader)@.timeline
                }
                &&& measured ==> (wanted matches Some(plan) ==> final(reader)@.schedule == plan)
            },
{
    let (view, started, reached) = choose|view: GateView, started: Reached, reached: Reached|
        renders(
            old(reader)@,
            final(reader)@,
            *old(pipe),
            *final(pipe),
            *old(visible),
            *final(visible),
            view,
            started,
            reached,
            measured,
            wanted,
            final(output)@,
            rendered,
        ) && #[trigger] exchanged(
            *callback.of(),
            *checkpoint,
            *progress,
            view,
            started,
            reached,
            final(reader)@.position,
        );
    a_rendering_is_made_of_source_frames(
        old(reader)@,
        final(reader)@,
        *old(pipe),
        *final(pipe),
        *old(visible),
        *final(visible),
        view,
        started,
        reached,
        measured,
        wanted,
        final(output)@,
        rendered,
    );
    a_rendering_keeps_its_plan_and_reports_where_it_began(
        old(reader)@,
        final(reader)@,
        *old(pipe),
        *final(pipe),
        *old(visible),
        *final(visible),
        view,
        started,
        reached,
        measured,
        wanted,
        final(output)@,
        rendered,
    );
    assert(callback.of().shows(view) && got_u64(*progress, started.consumed) && put_u64(
        *progress,
        reached.consumed,
    ));
}

/// A reanchor that is not explicit and succeeds for a target gives that target, and leaves the
/// cursor there with no remainder. An explicit one that succeeds gives a time that is not before
/// the target, and leaves the cursor there. Nothing of the source is lost.
pub proof fn reanchoring_moves_the_cursor_to_the_target<F: FnOnce() -> Option<i64>>(
    queue: &mut PlaybackQueue,
    publication: &Publication,
    owner: &RendererOwner,
    scope: PlayerScope,
    target_now: F,
    explicit: bool,
    target: i64,
    result: Result<Option<i64>, ()>,
)
    requires
        forall|t: Option<i64>| #[trigger] call_ensures(target_now, (), t) ==> t == Some(target),
        call_ensures(
            PlaybackQueue::try_reanchor_prepared::<F>,
            (queue, publication, owner, scope, target_now, explicit),
            result,
        ),
    ensures
        result matches Ok(Some(cursor)) ==> {
            &&& final(queue).source().cursor_us == cursor
            &&& final(queue).source().cursor_remainder == 0
            &&& !explicit ==> cursor == target
            &&& cursor >= target
            &&& !final(queue).force_reanchor
        },
        !explicit ==> result != Ok::<Option<i64>, ()>(None),
        result matches Ok(None) ==> final(queue).force_reanchor == old(queue).force_reanchor
            && forall|i: int|
            0 <= i < final(queue).source().order().len() ==> (
            #[trigger] final(queue).source().order()[i]).end_us() <= target,
        result is Err ==> final(queue).force_reanchor == old(queue).force_reanchor,
{
    match result {
        Ok(Some(cursor)) => {
            if cursor < target {
                let between = choose|between: PlaybackQueue|
                    super::source::moved_from(*publication, *owner, scope, *old(queue), between)
                        && Some(cursor) == super::source::anchor(
                        between.source(),
                        target,
                        explicit,
                    );
                a_reanchor_goes_to_its_target(between.source(), target, explicit);
            }
        },
        _ => {},
    }
}

/// An explicit reanchor that succeeds gives the least time at or after the target at which a buffer
/// is playing, where the buffers follow one another in time and all last.
pub proof fn reanchoring_on_request_takes_the_least_playable_time<F: FnOnce() -> Option<i64>>(
    queue: &mut PlaybackQueue,
    publication: &Publication,
    owner: &RendererOwner,
    scope: PlayerScope,
    target_now: F,
    target: i64,
    cursor: i64,
)
    requires
        forall|t: Option<i64>| #[trigger] call_ensures(target_now, (), t) ==> t == Some(target),
        call_ensures(
            PlaybackQueue::try_reanchor_prepared::<F>,
            (queue, publication, owner, scope, target_now, true),
            Ok::<Option<i64>, ()>(Some(cursor)),
        ),
        forall|i: int, j: int|
            0 <= i < j < final(queue).source().order().len() ==> (
            #[trigger] final(queue).source().order()[i]).timestamp <= (
            #[trigger] final(queue).source().order()[j]).timestamp,
        forall|i: int|
            0 <= i < final(queue).source().order().len() ==> is_playing_at(
                #[trigger] final(queue).source().order()[i],
                final(queue).source().order()[i].timestamp as int,
            ),
    ensures
        cursor >= target,
        exists|i: int|
            0 <= i < final(queue).source().order().len() && is_playing_at(
                #[trigger] final(queue).source().order()[i],
                cursor as int,
            ),
        forall|u: int, i: int|
            target <= u < cursor && 0 <= i < final(queue).source().order().len()
                ==> !#[trigger] is_playing_at(final(queue).source().order()[i], u),
{
    let (between, t) = choose|between: PlaybackQueue, t: i64| #[trigger]
        super::source::moved_from(*publication, *owner, scope, *old(queue), between)
            && #[trigger] call_ensures(target_now, (), Some(t)) && Some(cursor)
            == super::source::anchor(between.source(), t, true) && final(queue).source() == (Source {
            cursor_us: cursor,
            cursor_remainder: 0,
            ..between.source()
        });
    assert(final(queue).source().order() == between.source().order());
    the_first_playable_time_is_the_least(between.source().order(), target);
}

/// A position that belongs to a queue is taken over with what was consumed up to it; every other one
/// is refused, and changes nothing.
pub proof fn settling_takes_over_a_position(
    queue: &mut PlaybackQueue,
    position: SourcePosition,
    source_frames: u64,
    taken: bool,
)
    requires
        call_ensures(PlaybackQueue::settle, (queue, position, source_frames), taken),
    ensures
        !taken ==> *final(queue) == *old(queue),
        taken ==> {
            &&& final(queue).settled_consumed == source_frames
            &&& final(queue).source().cursor_us == position.cursor_us
            &&& final(queue).source().cursor_remainder == position.cursor_remainder
            &&& final(queue).source().index == position.index
            &&& final(queue).source().retired_through == position.retired_through
            &&& (match final(queue).source().current {
                Some(entry) => entry.id,
                None => 0,
            }) == position.current
        },
        final(queue).next_source_id == old(queue).next_source_id,
        final(queue).force_reanchor == old(queue).force_reanchor,
{
}

/// A view of the source is named by the version that was observed, the next identity and the frames
/// consumed before it.
pub proof fn a_view_is_named_by_what_it_is_made_from(
    queue: PlaybackQueue,
    observed: GateView,
    key: (u64, u64, u64),
)
    requires
        call_ensures(PlaybackQueue::snapshot_key, (&queue, observed), key),
    ensures
        key.0 == observed.says().epoch,
        key.1 == queue.next_source_id,
        key.2 == queue.settled_consumed,
{
}

/// Clearing forgets every source and begins a new generation; identities and what was consumed stay.
pub proof fn clearing_forgets_every_source(queue: &mut PlaybackQueue)
    requires
        call_ensures(PlaybackQueue::clear, (queue,), ()),
    ensures
        final(queue).source().pending.len() == 0,
        final(queue).source().current is None,
        !final(queue).initialized,
        !final(queue).force_reanchor,
        final(queue).next_source_id == old(queue).next_source_id,
        final(queue).settled_consumed == old(queue).settled_consumed,
        final(queue).retired_through == old(queue).retired_through,
        old(queue).generation < u64::MAX ==> final(queue).generation == old(queue).generation + 1,
{
}

/// A block adds to what was inserted and dropped what its rendering did, and to nothing else.
pub proof fn a_block_is_counted(diagnostics: &mut Diagnostics, rendered: Rendered)
    requires
        call_ensures(Diagnostics::add_block, (diagnostics, rendered), ()),
        old(diagnostics).inserted_frames + rendered.inserted <= u64::MAX,
        old(diagnostics).dropped_frames + rendered.dropped <= u64::MAX,
    ensures
        final(diagnostics).inserted_frames == old(diagnostics).inserted_frames + rendered.inserted,
        final(diagnostics).dropped_frames == old(diagnostics).dropped_frames + rendered.dropped,
        *final(diagnostics) == (Diagnostics {
            inserted_frames: final(diagnostics).inserted_frames,
            dropped_frames: final(diagnostics).dropped_frames,
            ..*old(diagnostics)
        }),
{
}

/// Output lies ahead as was measured, else as was measured last, else by one period.
pub proof fn output_lies_ahead_as_measured(
    state: OutputState,
    measured_ns: Option<u64>,
    period_ns: u64,
    ahead_ns: u64,
)
    requires
        call_ensures(OutputState::ahead, (&state, measured_ns, period_ns), ahead_ns),
    ensures
        measured_ns matches Some(measured) ==> ahead_ns == measured,
        measured_ns is None ==> (state.last_ns matches Some(last) ==> ahead_ns == last),
        measured_ns is None && state.last_ns is None ==> ahead_ns == period_ns,
{
}

/// Output starts where everything is ready, valid and due, and is not stopped here.
pub proof fn output_starts_when_all_is_ready(
    state: &mut OutputState,
    ready: bool,
    valid: bool,
    due: bool,
    started: bool,
)
    requires
        call_ensures(OutputState::start, (state, ready, valid, due), started),
    ensures
        started == final(state).started,
        final(state).started <==> old(state).started || (ready && valid && due),
        *final(state) == (OutputState { started, ..*old(state) }),
{
}

/// Something may be played where it is prepared, and not from before the last clear.
pub proof fn only_what_is_prepared_may_be_played(
    state: OutputState,
    pending: bool,
    epoch: u64,
    ready: bool,
)
    requires
        call_ensures(OutputState::ready, (&state, pending, epoch), ready),
    ensures
        ready <==> !pending && state.minimum_epoch <= epoch,
{
}

/// A callback begins: it is counted, goes by what was measured of it, else by the last latency, else
/// by its period, and by the delay of its timing, else by the one that is configured. It is of the
/// timeline that control announces, else of the one that is played. What was played and what was
/// reported stay; windows are dropped only where nothing is heard, and only those from before the
/// version that was announced.
pub proof fn a_callback_begins(
    device: &mut Device,
    callback: &CallbackGuard<'_>,
    entry: super::device::Entry,
    turn: Turn,
)
    requires
        call_ensures(Device::enter, (device, callback, entry), turn),
        counts_on(old(device).diagnostics),
        old(device).diagnostics.requested_frames + entry.frames <= u64::MAX,
    ensures
        turn.measured <==> entry.measured_ns is Some,
        entry.measured_ns matches Some(measured) ==> turn.ahead_ns == measured,
        turn.origin is None,
        turn.missing == 0,
        turn.audible ==> entry.open && final(device).state.started,
        final(device).reader == old(device).reader,
        final(device).events == old(device).events,
        final(device).diagnostics.callbacks == old(device).diagnostics.callbacks + 1,
        final(device).diagnostics.requested_frames == old(device).diagnostics.requested_frames
            + entry.frames,
        final(device).diagnostics.callback_frames == entry.frames,
        final(device).diagnostics.inserted_frames == old(device).diagnostics.inserted_frames,
        final(device).diagnostics.dropped_frames == old(device).diagnostics.dropped_frames,
        final(device).diagnostics.underrun_frames == old(device).diagnostics.underrun_frames,
        final(device).diagnostics.silent_frames == old(device).diagnostics.silent_frames,
        final(device).cached_timing matches Some(timing) ==> turn.delay_us == timing.delay_us
            && final(device).diagnostics.generation == timing.generation,
        final(device).cached_timing is None ==> turn.delay_us == entry.configured_delay_us
            && !turn.audible,
        turn.ahead_ns > 0 || instant_ns(turn.playback) == instant_ns(entry.captured_at),
        exists|found: super::device::Found|
            {
                let said = (#[trigger] found.view.says());
                &&& callback.of().shows(found.view)
                &&& said.revoked || said.reanchored ==> turn.timeline == said.epoch
                &&& !said.revoked && !said.reanchored ==> turn.timeline
                    == old(device).reader@.timeline
                &&& final(device).cached_timing == if found.timing is Some {
                    found.timing
                } else {
                    old(device).cached_timing
                }
                &&& exists|entered: DeviceSide, dropped: int|
                    {
                        &&& 0 <= dropped
                        &&& #[trigger] entered.coming().skip(dropped)
                            == final(device).pipe.coming()
                        &&& turn.audible || (!said.revoked && !said.reanchored) ==> dropped == 0
                        &&& forall|i: int|
                            0 <= i < dropped ==> (#[trigger] entered.coming()[i]).epoch < said.epoch
                    }
            },
{
    let found = choose|found: super::device::Found| #[trigger]
        super::device::enters(
            *callback.of(),
            *old(device),
            *final(device),
            entry,
            turn,
            found,
        );
    a_callback_is_counted_as_it_begins(
        old(device).diagnostics,
        entry.frames,
        entry.playback_delay_us,
        entry.gap_us,
        entry.fallback,
        entry.evidence,
    );
    a_callback_goes_by_the_last_timing_it_knows(old(device).cached_timing, found);
    let (entered, budget) = choose|entered: DeviceSide, budget: usize| #[trigger]
        super::transport::enters_lane(old(device).pipe, entered, budget) && ({
            let dropped = budget - turn.visible;
            let may = !turn.audible && (found.view.says().revoked || found.view.says().reanchored);
            &&& 0 <= dropped
            &&& final(device).pipe.coming() == entered.coming().skip(dropped)
            &&& !may ==> final(device).pipe == entered && dropped == 0
            &&& forall|i: int|
                0 <= i < dropped ==> (#[trigger] entered.coming()[i]).epoch
                    < found.view.says().epoch
        });
    assert(entered.coming().skip(budget - turn.visible) == final(device).pipe.coming());
}

/// A block is played from the windows that the callback may see: whole source frames, repeats and
/// silence. What it lacked is added to what the callback lacked, what it inserted and dropped is
/// counted, and the source time of the callback is that of its first block that has one.
pub proof fn a_block_is_played_from_the_source(
    device: &mut Device,
    callback: &CallbackGuard<'_>,
    turn: &mut Turn,
    output: &mut [i32],
)
    requires
        old(device).reader@.channels() > 0,
        old(output)@.len() as int % old(device).reader@.channels() == 0,
        call_ensures(Device::play_block, (device, callback, turn, output), ()),
    ensures
        final(output)@.len() == old(output)@.len(),
        old(turn).origin is Some ==> final(turn).origin == old(turn).origin,
        *final(turn) == (Turn {
            visible: final(turn).visible,
            origin: final(turn).origin,
            missing: final(turn).missing,
            ..*old(turn)
        }),
        exists|
            heard: Seq<Heard>,
            standings: Seq<Standing>,
            counters: CadenceCounters,
            view: GateView,
            started: Reached,
            reached: Reached,
        |
            #![trigger
                heard.len(),
                standings.len(),
                counters.drop,
                exchanged(*callback.of(), *old(device).publication.checkpoint, *old(device).publication.consumed, view, started, reached, final(device).reader@.position)
            ]
            {
            let frames = final(output)@.len() as int / old(device).reader@.channels();
            &&& exchanged(
                *callback.of(),
                *old(device).publication.checkpoint,
                *old(device).publication.consumed,
                view,
                started,
                reached,
                final(device).reader@.position,
            )
            &&& composed(
                steps_of(final(device).reader@.schedule, old(turn).measured, counters, frames),
                heard,
                standings,
                old(device).pipe.coming(),
                old(turn).visible as int,
                if view.says().reanchored {
                    view.says().epoch
                } else {
                    old(device).reader@.minimum_epoch
                },
                if view.says().revoked {
                    Seq::new(old(device).reader@.last.len(), |i: int| 0i32)
                } else {
                    old(device).reader@.last
                },
                final(output)@,
            )
            &&& standings[frames].at == reached.consumed
            &&& old(turn).missing + standings[frames].missing <= u64::MAX ==> final(turn).missing
                == old(turn).missing + standings[frames].missing
            &&& old(device).diagnostics.inserted_frames + standings[frames].inserted <= u64::MAX
                ==> final(device).diagnostics.inserted_frames == old(
                device,
            ).diagnostics.inserted_frames + standings[frames].inserted
            &&& old(device).diagnostics.dropped_frames + standings[frames].dropped <= u64::MAX
                ==> final(device).diagnostics.dropped_frames == old(
                device,
            ).diagnostics.dropped_frames + standings[frames].dropped
        },
{
    let (view, started, reached, rendered) = choose|
        view: GateView,
        started: Reached,
        reached: Reached,
        rendered: Rendered,
    | #[trigger]
        renders(
            old(device).reader@,
            final(device).reader@,
            old(device).pipe,
            final(device).pipe,
            old(turn).visible,
            final(turn).visible,
            view,
            started,
            reached,
            old(turn).measured,
            old(turn).wanted,
            final(output)@,
            rendered,
        ) && final(turn).missing == super::device::plus(
            old(turn).missing,
            rendered.missing as int,
        ) && final(device).diagnostics == (Diagnostics {
            inserted_frames: super::device::plus(
                old(device).diagnostics.inserted_frames,
                rendered.inserted as int,
            ),
            dropped_frames: super::device::plus(
                old(device).diagnostics.dropped_frames,
                rendered.dropped as int,
            ),
            ..old(device).diagnostics
        }) && exchanged(
            *callback.of(),
            *old(device).publication.checkpoint,
            *old(device).publication.consumed,
            view,
            started,
            reached,
            final(device).reader@.position,
        );
    let (heard, standings, counters) = a_rendering_is_made_of_source_frames(
        old(device).reader@,
        final(device).reader@,
        old(device).pipe,
        final(device).pipe,
        old(turn).visible,
        final(turn).visible,
        view,
        started,
        reached,
        old(turn).measured,
        old(turn).wanted,
        final(output)@,
        rendered,
    );
    assert(heard.len() >= 0 && standings.len() >= 0 && counters.drop >= 0);
}

/// A callback is reported with what it counted and how it lay: its number, its frames, its delay and
/// how far ahead it was played. It reports feedback exactly where something was played, with the
/// source time that this began with, the presentation if it was measured, and the reset that its
/// plan was read under. Without a place in the ring the report is dropped, and nothing else is.
pub proof fn a_callback_is_reported(device: &mut Device, turn: Turn, frames: usize, event: DeviceEvent)
    requires
        call_ensures(Device::leave, (device, turn, frames), event),
    ensures
        event.serial == old(device).diagnostics.callbacks,
        event.generation == old(device).diagnostics.generation,
        event.callback_frames == frames,
        event.delay_us == turn.delay_us,
        event.playback_delta_ns == turn.ahead_ns,
        event.latency_floor_ns == old(device).state.floor_ns,
        event.started == old(device).state.started,
        event.diagnostics == final(device).diagnostics,
        turn.origin is None ==> event.feedback is None,
        turn.origin matches Some(origin) ==> (event.feedback matches Some(feedback) && {
            &&& feedback.input.source_cursor_us == origin
            &&& feedback.input.timeline == turn.timeline
            &&& feedback.input.serial == event.serial
            &&& turn.measured ==> feedback.input.presentation == Some(turn.playback)
            &&& !turn.measured ==> feedback.input.presentation is None
            &&& feedback.input.actual_schedule == old(device).reader@.schedule
            &&& feedback.reset_epoch == old(device).plan_reader.memory().reset_epoch
            &&& feedback.latency_floor_ns == old(device).state.floor_ns
        }),
        !turn.audible ==> final(device).diagnostics.underrun_frames
            == old(device).diagnostics.underrun_frames,
        turn.audible ==> final(device).diagnostics.silent_callbacks
            == old(device).diagnostics.silent_callbacks,
        old(device).events.room() > 0 ==> final(device).events.sent() == old(device).events.sent()
            + 1 && old(device).events.stream()[old(device).events.sent() as int] == event,
{
}

/// A report is published with the anchors that were made, and with what it says itself.
pub proof fn a_report_is_published_with_the_anchors(
    state: WorkerState,
    report: Diagnostics,
    published: Diagnostics,
)
    requires
        call_ensures(WorkerState::reported, (&state, report), published),
    ensures
        published.startup_reanchors == state.startup_reanchors,
        published.correction_reanchors == state.correction_reanchors,
        published.last_reanchor_error_us == state.last_reanchor_error_us,
        published.callbacks == report.callbacks,
        published.inserted_frames == report.inserted_frames,
        published.dropped_frames == report.dropped_frames,
        published.underrun_frames == report.underrun_frames,
        published.silent_callbacks == report.silent_callbacks,
        published.silent_frames == report.silent_frames,
        published.raw_error_us == report.raw_error_us,
        published.filtered_error_us == report.filtered_error_us,
        published == (Diagnostics {
            startup_reanchors: published.startup_reanchors,
            correction_reanchors: published.correction_reanchors,
            last_reanchor_error_us: published.last_reanchor_error_us,
            ..report
        }),
{
}

/// A correction that was anchored keeps the error that the filter told of it; an anchor that was
/// asked for keeps the one before.
pub proof fn an_anchored_error_is_kept(
    state: &mut WorkerState,
    request: AnchorRequest,
    told: Option<FilteredError>,
)
    requires
        call_ensures(WorkerState::note_anchor, (state, request, told), ()),
    ensures
        request.explicit ==> *final(state) == *old(state),
        !request.explicit ==> (told matches Some(error) ==> final(state).last_reanchor_error_us
            == Some(error.filtered_us)),
        !request.explicit && told is None ==> final(state).last_reanchor_error_us is None,
        *final(state) == (WorkerState {
            last_reanchor_error_us: final(state).last_reanchor_error_us,
            ..*old(state)
        }),
{
}

/// The device is told that nothing is ready exactly while the source has not begun or no view of it
/// is at hand; where it has begun, it is told the source time of the cursor.
pub proof fn the_worker_tells_what_is_ready(
    worker: Worker,
    queue: PlaybackQueue,
    facts: TimingFacts,
)
    requires
        call_ensures(Worker::timing_facts, (&worker, &queue), facts),
    ensures
        facts.pending <==> !queue.initialized || worker.state.snapshot is None,
        queue.initialized ==> facts.cursor_us == Some(queue.cursor_us),
        !queue.initialized ==> facts.cursor_us is None,
        facts.generation == queue.generation,
        facts.delay_us == worker.state.applied_delay_us,
        facts.boundary_zone matches Some(zone) ==> facts.boundary - zone == facts.delay_us,
{
}

/// Windows are published in the order of their frames, the first that is made from where the worker has
/// got to, each going on where the one before it ends,
/// for the version of the view and as many as there are free ones; one is kept back for an anchor,
/// unless it was just made.
pub proof fn windows_are_published_in_order(
    worker: &mut Worker,
    use_reserved_credit: bool,
    published: usize,
)
    requires
        call_ensures(Worker::prepare_windows, (worker, use_reserved_credit), published),
    ensures
        published <= 4,
        old(worker).first_made() < old(worker).producer.outgoing().sent() + published ==> old(
            worker,
        ).producer.outgoing().stream()[old(worker).first_made()].source_base == old(
            worker,
        ).state.prepared_base,
        published > 0 && !final(worker).state.pending_window ==> ({
            let last = old(worker).producer.outgoing().stream()[old(
                worker,
            ).producer.outgoing().sent() + published - 1];
            last.source_base + last.valid == final(worker).state.prepared_base
        }),
        old(worker).state.snapshot is None ==> published == 0,
        final(worker).producer.credits().len() == old(worker).producer.credits().len() - published,
        final(worker).producer.outgoing().sent() == old(worker).producer.outgoing().sent()
            + published,
        forall|i: int|
            old(worker).producer.outgoing().sent() < i < old(worker).producer.outgoing().sent()
                + published ==> (
            #[trigger] old(worker).producer.outgoing().stream()[i]).source_base == old(
                worker,
            ).producer.outgoing().stream()[i - 1].source_base + old(
                worker,
            ).producer.outgoing().stream()[i - 1].valid,
        published > (if use_reserved_credit {
            1int
        } else {
            0
        }) ==> final(worker).producer.credits().len() >= 1,
        forall|i: int|
            old(worker).first_made() <= i < old(worker).producer.outgoing().sent() + published
                ==> old(worker).state.snapshot is Some && (
            #[trigger] old(worker).producer.outgoing().stream()[i]).epoch
                == old(worker).state.snapshot->0.epoch,
{
}

/// A callback follows the plan that its memory keeps: none where that is a reanchor or no plan, and
/// what it does already where nothing is known.
pub proof fn a_callback_follows_what_it_knows(
    device: &mut Device,
    callback: &CallbackGuard<'_>,
    entry: super::device::Entry,
    turn: Turn,
)
    requires
        call_ensures(Device::enter, (device, callback, entry), turn),
    ensures
        exists|reading: Option<PlanReading>|
            {
                let known = looked(
                    old(device).plan_reader.memory(),
                    reading,
                    turn.timeline,
                    entry.now_us,
                );
                let kept = followed(
                    known,
                    turn.timeline,
                    entry.now_us,
                    old(device).reader@.schedule,
                );
                &&& #[trigger] old(device).plans.gives(turn.timeline, reading)
                &&& final(device).plan_reader.memory() == kept.0
                &&& kept.1 is None ==> turn.wanted == Some(old(device).reader@.schedule)
                &&& kept.1 matches Some(Some(schedule)) ==> turn.wanted == if schedule.reanchor {
                    None
                } else {
                    Some(schedule)
                }
                &&& kept.1 == Some(None::<CorrectionSchedule>) ==> turn.wanted is None
            },
{
}

} // verus!
