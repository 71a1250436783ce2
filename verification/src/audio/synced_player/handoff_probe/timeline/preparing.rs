//! What preparations, spans and prepared sources do, told of their sources and their output.
use super::checkpoint::{CheckpointStep, Snapshot};
use super::output::{
    a_reading_is_made_of_span_frames, a_span_holds_the_frames_of_its_steps, asked_by, lemma_asked,
    lemma_requests_add, output_moves_the_source_by_its_steps, scheduled_output_keeps_the_cadence,
};
use super::{
    output_step, pending_of, scheduled_steps, spans, turn_read, turns_heard, Preparation, Progress, Read, Span, SpanDevice,
    SpanOutcome, SpanTurn,
};
use crate::audio::sync_correction::{step_at, CadenceStep, CorrectionSchedule};
use crate::audio::synced_player::handoff_probe::bounded::{
    consumed_by, copy_prepared, given_before, prepared_after, sounds_from, HeadFound, HeadTurns,
    PreparedSource, Preparing, SourceDevice,
};
use crate::audio::synced_player::handoff_probe::sources::{
    a_prepared_frame_takes_its_source_frames, sources_are_heard_one_after_the_other,
};
use crate::audio::synced_player::playback::{
    a_queued_buffer_replaces_what_it_clashes_with, clashes,
};
use crate::audio::synced_player::ingress::{CallbackGuard, ControlGate};
use crate::audio::synced_player::preparation::{lemma_chunk_bounds, source_after};
use crate::audio::synced_player::queue::{
    in_order, next_frame, pushing_keeps_order, Entry, QueuedAudioBuffer, Source,
};
use crate::audio::synced_player::requests::lemma_pushed_holds;
use crate::audio::synced_player::shared::added;
use crate::audio::synced_player::transport::{enters_lane, DeviceLane};
use crate::audio::AudioBuffer;
use std::sync::atomic::AtomicU64;
use vstd::prelude::*;

verus! {

/// A pending entry is a source: it has its identity, its time, its samples and its format.
pub open spec fn is_entry_of(entry: Entry, source: (u64, AudioBuffer)) -> bool {
    &&& entry.id == source.0
    &&& entry.timestamp == source.1.timestamp
    &&& entry.samples == source.1.samples@
    &&& entry.channels == source.1.format.channels
    &&& entry.rate == source.1.format.sample_rate
}

/// A pending entry is one of these sources.
pub open spec fn is_one_of(entry: Entry, sources: Seq<(u64, AudioBuffer)>) -> bool {
    exists|i: int| 0 <= i < sources.len() && #[trigger] is_entry_of(entry, sources[i])
}

/// The entry that a source is queued as.
pub open spec fn queued_as(source: (u64, AudioBuffer)) -> Entry {
    QueuedAudioBuffer { source_id: source.0, buffer: source.1 }@
}

/// No later source, of so many, clashes with this one.
pub open spec fn is_unreplaced(sources: Seq<(u64, AudioBuffer)>, i: int, count: int) -> bool {
    forall|j: int|
        i < j < count ==> !clashes(queued_as(sources[i]), queued_as(#[trigger] sources[j]))
}

proof fn lemma_pending(sources: Seq<(u64, AudioBuffer)>, count: int)
    requires
        0 <= count <= sources.len(),
    ensures
        in_order(pending_of(sources, count)),
        forall|e: Entry| #[trigger]
            pending_of(sources, count).contains(e) ==> exists|i: int|
                0 <= i < count && e == queued_as(#[trigger] sources[i]),
        forall|i: int|
            0 <= i < count && #[trigger] is_unreplaced(sources, i, count) ==> pending_of(
                sources,
                count,
            ).contains(queued_as(sources[i])),
    decreases count,
{
    if count > 0 {
        lemma_pending(sources, count - 1);
        let before = pending_of(sources, count - 1);
        let last = queued_as(sources[count - 1]);
        pushing_keeps_order(before, last);
        assert forall|e: Entry| #[trigger] pending_of(sources, count).contains(e) implies exists|
            i: int,
        | 0 <= i < count && e == queued_as(#[trigger] sources[i]) by {
            lemma_pushed_holds(before, last, e);
            if e == last {
                assert(e == queued_as(sources[count - 1]));
            }
        }
        assert forall|i: int|
            0 <= i < count && #[trigger] is_unreplaced(sources, i, count) implies pending_of(
            sources,
            count,
        ).contains(queued_as(sources[i])) by {
            lemma_pushed_holds(before, last, queued_as(sources[i]));
            if i < count - 1 {
                assert(!clashes(queued_as(sources[i]), queued_as(sources[count - 1])));
                assert(is_unreplaced(sources, i, count - 1));
            }
        }
    }
}

/// A preparation of sources holds them all, in the order of their times, but for those that a later
/// one clashes with, and nothing else. It begins at the time of the first, in its format, with
/// silence and no output.
pub proof fn a_preparation_holds_its_sources(
    sources: Vec<(u64, AudioBuffer)>,
    window_frames: usize,
    preparation: Option<Preparation>,
)
    requires
        call_ensures(Preparation::with_window_frames, (sources, window_frames), preparation),
    ensures
        preparation matches Some(p) ==> {
            let pending = p.cursor.source().pending;
            &&& sources@.len() > 0
            &&& p.channels == sources@[0].1.format.channels
            &&& p.rate == sources@[0].1.format.sample_rate
            &&& p.window_frames == window_frames
            &&& p.output_frames == 0
            &&& p.last@.len() == p.channels
            &&& forall|c: int| 0 <= c < p.channels ==> #[trigger] p.last@[c] == 0
            &&& p.cursor.source().cursor_us == sources@[0].1.timestamp
            &&& p.cursor.source().current is None
            &&& forall|i: int, j: int|
                0 <= i < j < pending.len() ==> (#[trigger] pending[i]).timestamp <= (
                #[trigger] pending[j]).timestamp
            &&& forall|k: int|
                0 <= k < pending.len() ==> is_one_of(#[trigger] pending[k], sources@)
            &&& forall|i: int|
                0 <= i < sources@.len() && #[trigger] is_unreplaced(
                    sources@,
                    i,
                    sources@.len() as int,
                ) ==> exists|k: int|
                    0 <= k < pending.len() && #[trigger] is_entry_of(pending[k], sources@[i])
        },
{
    if let Some(p) = preparation {
        let all = sources@;
        let pending = p.cursor.source().pending;
        lemma_pending(all, all.len() as int);
        assert forall|k: int| 0 <= k < pending.len() implies is_one_of(
            #[trigger] pending[k],
            all,
        ) by {
            assert(pending.contains(pending[k]));
            let i = choose|i: int| 0 <= i < all.len() && pending[k] == queued_as(#[trigger] all[i]);
            assert(is_entry_of(pending[k], all[i]));
        }
        assert forall|i: int|
            0 <= i < all.len() && #[trigger] is_unreplaced(
                all,
                i,
                all.len() as int,
            ) implies exists|k: int|
            0 <= k < pending.len() && #[trigger] is_entry_of(pending[k], all[i]) by {
            assert(pending.contains(queued_as(all[i])));
            let k = choose|k: int| 0 <= k < pending.len() && pending[k] == queued_as(all[i]);
            assert(is_entry_of(pending[k], all[i]));
        }
    }
}

/// A source that is added to a preparation stands once among what is pending, in the order of its
/// time, and replaces what it clashes with; what was output stays.
pub proof fn an_added_source_stands_in_its_place(
    preparation: &mut Preparation,
    id: u64,
    buffer: AudioBuffer,
) -> (at: int)
    requires
        old(preparation).well_formed(),
        call_ensures(Preparation::push, (preparation, id, buffer), ()),
    ensures
        ({
            let before = old(preparation).cursor.source();
            let after = final(preparation).cursor.source();
            &&& 0 <= at < after.pending.len()
            &&& is_entry_of(after.pending[at], (id, buffer))
            &&& after.pending.remove(at) == before.pending.filter(
                |e: Entry| !clashes(e, after.pending[at]),
            )
            &&& forall|i: int|
                0 <= i < at ==> (#[trigger] after.pending[i]).timestamp <= buffer.timestamp
            &&& forall|i: int|
                at < i < after.pending.len() ==> (#[trigger] after.pending[i]).timestamp
                    > buffer.timestamp
            &&& after.current == before.current && after.index == before.index
            &&& !old(preparation).cursor.initialized ==> after.cursor_us == buffer.timestamp
            &&& old(preparation).cursor.initialized ==> after.cursor_us == before.cursor_us
        }),
        final(preparation).cursor.next_source_id == id + 1,
        final(preparation).phase() == old(preparation).phase(),
{
    let new = queued_as((id, buffer));
    a_queued_buffer_replaces_what_it_clashes_with(old(preparation).cursor.source().pending, new)
}

/// What the device has done is taken over by a preparation whose source it belongs to: where it is,
/// what it heard last, how much it has output, and its cadence. Every other report changes nothing.
pub proof fn a_preparation_goes_on_from_the_device(
    preparation: &mut Preparation,
    actual: &Snapshot<'_>,
    applied: bool,
)
    requires
        call_ensures(Preparation::apply_actual, (preparation, actual), applied),
    ensures
        !applied ==> *final(preparation) == *old(preparation),
        applied ==> {
            let s = final(preparation).cursor.source();
            &&& s.cursor_us == actual.position.cursor_us
            &&& s.cursor_remainder == actual.position.cursor_remainder
            &&& s.index == actual.position.index
            &&& s.retired_through == actual.position.retired_through
            &&& (match s.current {
                Some(entry) => entry.id,
                None => 0,
            }) == actual.position.current
            &&& final(preparation).output_frames == actual.output_frames
            &&& final(preparation).last@ == actual.last@
            &&& final(preparation).schedule == actual.cadence.schedule
            &&& final(preparation).counters.insert == actual.cadence.insert_counter
            &&& final(preparation).counters.drop == actual.cadence.drop_counter
        },
        final(preparation).channels == old(preparation).channels,
        final(preparation).rate == old(preparation).rate,
{
}

/// A fork goes on from where the preparation is, and gives the same output.
pub proof fn a_fork_is_where_the_preparation_is(preparation: Preparation, fork: Preparation)
    requires
        call_ensures(Preparation::fork_actual, (&preparation,), fork),
    ensures
        fork.cursor.source() == preparation.cursor.source(),
        fork.cursor.next_source_id == preparation.cursor.next_source_id,
        fork.output_frames == preparation.output_frames,
        fork.last@ == preparation.last@,
        fork.schedule == preparation.schedule,
        fork.counters == preparation.counters,
        fork.channels == preparation.channels,
        fork.rate == preparation.rate,
        fork.window_frames == preparation.window_frames,
{
}

/// A reset forgets every source, all output and the cadence; its format stays.
pub proof fn a_reset_preparation_is_empty(preparation: &mut Preparation)
    requires
        call_ensures(Preparation::reset, (preparation,), ()),
    ensures
        final(preparation).cursor.source().pending.len() == 0,
        final(preparation).cursor.source().current is None,
        final(preparation).output_frames == 0,
        final(preparation).last@.len() == old(preparation).channels,
        forall|c: int|
            0 <= c < old(preparation).channels ==> #[trigger] final(preparation).last@[c] == 0,
        final(preparation).schedule.insert_every_n_frames == 0,
        final(preparation).schedule.drop_every_n_frames == 0,
        !final(preparation).schedule.reanchor,
        final(preparation).counters.insert == 0,
        final(preparation).counters.drop == 0,
        final(preparation).channels == old(preparation).channels,
        final(preparation).rate == old(preparation).rate,
        final(preparation).cursor.next_source_id == old(preparation).cursor.next_source_id,
{
}

/// A frame of a span has, in every channel, the source frame that its step plays: the next one, or
/// for a step of two the one behind it. Where a step of one has none to play it is silent and
/// missing.
pub open spec fn shows_step(
    s: Source,
    from: int,
    step: usize,
    span: Span,
    i: int,
    channels: int,
    rate: int,
) -> bool {
    let plays = next_frame(
        source_after(
            s,
            if step == 2 {
                from + 1
            } else {
                from
            },
            channels,
            rate,
        ),
        channels,
        rate,
    );
    &&& step > 0 ==> (plays matches Some(samples) ==> forall|c: int|
        0 <= c < channels ==> #[trigger] span.pcm@[i * channels + c] == samples[c])
    &&& step == 1 && plays is None ==> forall|c: int|
        0 <= c < channels ==> #[trigger] span.pcm@[i * channels + c] == 0
    &&& span.frames@[i].missing <==> step == 1 && plays is None
}

/// A span that is prepared by steps has one frame for each, as far as a window goes, numbered one
/// after the other. Each shows its step, from where the steps before it lead.
pub proof fn a_prepared_span_shows_its_steps(
    preparation: &mut Preparation,
    epoch: u64,
    steps: &[usize],
    span: Span,
)
    requires
        old(preparation).channels > 0,
        old(preparation).output_frames + old(preparation).window_frames <= u64::MAX,
        forall|i: int| 0 <= i < steps@.len() ==> #[trigger] steps@[i] <= 2,
        call_ensures(Preparation::prepare, (preparation, epoch, steps), span),
    ensures
        span.epoch == epoch,
        span.channels == old(preparation).channels,
        span.frames@.len() == if steps@.len() < old(preparation).window_frames {
            steps@.len() as int
        } else {
            old(preparation).window_frames as int
        },
        span.pcm@.len() == span.frames@.len() * old(preparation).channels,
        forall|i: int|
            0 <= i < span.frames@.len() ==> #[trigger] shows_step(
                old(preparation).cursor.source(),
                asked_by(steps@, i),
                steps@[i],
                span,
                i,
                old(preparation).channels as int,
                old(preparation).rate as int,
            ),
        forall|i: int|
            0 <= i < span.frames@.len() ==> (#[trigger] span.frames@[i]).output_index == old(
                preparation,
            ).output_frames + i,
        final(preparation).output_frames == old(preparation).output_frames + span.frames@.len(),
        final(preparation).cursor.source() == source_after(
            old(preparation).cursor.source(),
            asked_by(steps@, span.frames@.len() as int),
            old(preparation).channels as int,
            old(preparation).rate as int,
        ),
{
    lemma_shown(*old(preparation), steps@, span.frames@.len() as int, &span);
    output_moves_the_source_by_its_steps(
        old(preparation).progress(),
        steps@,
        span.frames@.len() as int,
        old(preparation).channels as int,
        old(preparation).rate as int,
    );
}

proof fn lemma_shown(preparation: Preparation, steps: Seq<usize>, count: int, span: &Span)
    requires
        preparation.channels > 0,
        0 <= count <= steps.len(),
        forall|k: int| 0 <= k < steps.len() ==> #[trigger] steps[k] <= 2,
        preparation.output_frames + count <= u64::MAX,
        spans(
            preparation.progress(),
            steps,
            count,
            preparation.channels as int,
            preparation.rate as int,
            span.frames@,
            span.pcm@,
        ),
    ensures
        forall|i: int|
            0 <= i < count ==> #[trigger] shows_step(
                preparation.cursor.source(),
                asked_by(steps, i),
                steps[i],
                *span,
                i,
                preparation.channels as int,
                preparation.rate as int,
            ),
        forall|i: int|
            0 <= i < count ==> (#[trigger] span.frames@[i]).output_index
                == preparation.output_frames + i,
{
    let channels = preparation.channels as int;
    let rate = preparation.rate as int;
    let p = preparation.progress();
    assert forall|i: int| 0 <= i < count implies #[trigger] shows_step(
        preparation.cursor.source(),
        asked_by(steps, i),
        steps[i],
        *span,
        i,
        channels,
        rate,
    ) by {
        a_span_holds_the_frames_of_its_steps(
            p,
            steps,
            count,
            channels,
            rate,
            span.frames@,
            span.pcm@,
            i,
            0,
        );
        assert forall|c: int| 0 <= c < channels implies ({
            let plays = next_frame(
                source_after(
                    p.source,
                    if steps[i] == 2 {
                        asked_by(steps, i) + 1
                    } else {
                        asked_by(steps, i)
                    },
                    channels,
                    rate,
                ),
                channels,
                rate,
            );
            &&& steps[i] > 0 ==> (plays matches Some(samples) ==> #[trigger] span.pcm@[i * channels
                + c] == samples[c])
            &&& steps[i] == 1 && plays is None ==> span.pcm@[i * channels + c] == 0
        }) by {
            a_span_holds_the_frames_of_its_steps(
                p,
                steps,
                count,
                channels,
                rate,
                span.frames@,
                span.pcm@,
                i,
                c,
            );
        }
    }
    assert forall|i: int| 0 <= i < count implies (#[trigger] span.frames@[i]).output_index
        == preparation.output_frames + i by {
        a_span_holds_the_frames_of_its_steps(
            p,
            steps,
            count,
            channels,
            rate,
            span.frames@,
            span.pcm@,
            i,
            0,
        );
    }
}

/// A span that is prepared under a schedule drops and repeats by its cadence where the time is
/// measured, and nowhere else; a new schedule begins with its own counts, and of fresh counts one
/// frame in so many is dropped. Each frame shows its step, from where those before it lead.
pub proof fn a_scheduled_span_keeps_its_cadence(
    preparation: &mut Preparation,
    epoch: u64,
    requested_frames: usize,
    schedule: CorrectionSchedule,
    measured: bool,
    span: Span,
) -> (steps: Seq<usize>)
    requires
        old(preparation).channels > 0,
        old(preparation).output_frames + old(preparation).window_frames <= u64::MAX,
        call_ensures(
            Preparation::prepare_scheduled,
            (preparation, epoch, requested_frames, schedule, measured),
            span,
        ),
    ensures
        span.epoch == epoch,
        span.channels == old(preparation).channels,
        span.frames@.len() == if requested_frames < old(preparation).window_frames {
            requested_frames as int
        } else {
            old(preparation).window_frames as int
        },
        steps.len() == span.frames@.len(),
        final(preparation).schedule == schedule,
        forall|i: int|
            0 <= i < steps.len() ==> #[trigger] shows_step(
                old(preparation).cursor.source(),
                asked_by(steps, i),
                steps[i],
                span,
                i,
                old(preparation).channels as int,
                old(preparation).rate as int,
            ),
        forall|i: int| 0 <= i < steps.len() && !measured ==> #[trigger] steps[i] == 1,
        measured && schedule == old(preparation).schedule ==> forall|i: int|
            0 <= i < steps.len() ==> (#[trigger] steps[i] == 2 <==> step_at(
                schedule,
                old(preparation).counters,
                i,
            ) == CadenceStep::Skip) && (steps[i] == 0 <==> step_at(
                schedule,
                old(preparation).counters,
                i,
            ) == CadenceStep::Repeat),
        measured && schedule != old(preparation).schedule && schedule.drop_every_n_frames > 0
            ==> forall|i: int|
            0 <= i < steps.len() ==> (#[trigger] steps[i] == 2 <==> (i + 1) % (
            schedule.drop_every_n_frames as int) == 0),
        measured && schedule != old(preparation).schedule && schedule.drop_every_n_frames == 0
            && schedule.insert_every_n_frames > 0 ==> forall|i: int|
            0 <= i < steps.len() ==> (#[trigger] steps[i] == 0 <==> (i + 1) % (
            schedule.insert_every_n_frames as int) == 0),
{
    let count = if requested_frames < old(preparation).window_frames {
        requested_frames as int
    } else {
        old(preparation).window_frames as int
    };
    let start = old(preparation).counters_under(schedule);
    let steps = scheduled_steps(schedule, measured, start, count);
    assert forall|i: int| 0 <= i < count implies ({
        &&& #[trigger] steps[i] <= 2
        &&& !measured ==> steps[i] == 1
        &&& measured ==> (steps[i] == 2 <==> step_at(schedule, start, i) == CadenceStep::Skip)
        &&& measured ==> (steps[i] == 0 <==> step_at(schedule, start, i) == CadenceStep::Repeat)
        &&& measured && schedule.drop_every_n_frames > 0 && start.drop
            == schedule.drop_every_n_frames ==> (steps[i] == 2 <==> (i + 1) % (
        schedule.drop_every_n_frames as int) == 0)
        &&& measured && schedule.drop_every_n_frames == 0 && schedule.insert_every_n_frames > 0
            && start.insert == schedule.insert_every_n_frames ==> (steps[i] == 0 <==> (i + 1) % (
        schedule.insert_every_n_frames as int) == 0)
    }) by {
        scheduled_output_keeps_the_cadence(schedule, measured, start, count, i);
    }
    lemma_shown(*old(preparation), steps, count, &span);
    steps
}

/// Reading a span fills output with whole frames of it, each once and in order, and with silence
/// behind them.
pub proof fn reading_a_span_gives_its_frames(
    span: Span,
    start: SpanOutcome,
    epoch: u64,
    output: &mut [i32],
    outcome: SpanOutcome,
) -> (places: Seq<int>)
    requires
        span.channels > 0,
        old(output)@.len() as int % span.channels as int == 0,
        !start.stopped,
        start.visited == 0,
        call_ensures(Span::read, (&span, start, epoch, output), outcome),
    ensures
        ({
            let channels = span.channels as int;
            &&& final(output)@.len() == old(output)@.len()
            &&& places.len() == outcome.visited
            &&& places.len() * channels <= final(output)@.len()
            &&& forall|k: int|
                0 <= k < places.len() ==> start.offset <= #[trigger] places[k]
                    < span.frames@.len()
            &&& forall|j: int, k: int|
                0 <= j < k < places.len() ==> #[trigger] places[j] < #[trigger] places[k]
            &&& forall|k: int, c: int|
                0 <= k < places.len() && 0 <= c < channels ==> final(output)@[k * channels + c]
                    == #[trigger] span.pcm@[places[k] * channels + c]
            &&& forall|x: int|
                places.len() * channels <= x < final(output)@.len()
                    ==> #[trigger] final(output)@[x] == 0
        }),
{
    let channels = span.channels as int;
    let length = old(output)@.len() as int;
    let frames = length / channels;
    assert(frames >= 0) by (nonlinear_arith)
        requires
            frames == length / channels,
            length >= 0,
            channels > 0,
    ;
    let places = a_reading_is_made_of_span_frames(span, start.reading(), frames, epoch);
    let n = places.len() as int;
    assert forall|k: int, c: int| 0 <= k < n && 0 <= c < channels implies final(output)@[k
        * channels + c] == #[trigger] span.pcm@[places[k] * channels + c] by {
        lemma_chunk_bounds(k, n, channels);
    }
    places
}

proof fn lemma_prepared_at(p: Preparing, steps: Seq<usize>, count: int, rate: int)
    requires
        0 <= count <= steps.len(),
        forall|i: int| 0 <= i < steps.len() ==> #[trigger] steps[i] <= 2,
    ensures
        prepared_after(p, steps, count, rate).source == source_after(
            p.source,
            asked_by(steps, count),
            1,
            rate,
        ),
    decreases count,
{
    if count > 0 {
        lemma_prepared_at(p, steps, count - 1, rate);
        let before = prepared_after(p, steps, count - 1, rate);
        a_prepared_frame_takes_its_source_frames(before, steps[count - 1], rate);
        lemma_asked(steps, count - 1);
        lemma_requests_add(p.source, asked_by(steps, count - 1), steps[count - 1] as int, 1, rate);
    }
}

/// A prepared source has a frame for each step, and each plays the sample that the source gives
/// there: the next one, or for a step of two the one behind it. The source is the buffer alone, from
/// the time that it is played from.
pub proof fn a_prepared_source_plays_its_buffer(
    buffer: AudioBuffer,
    source: u64,
    epoch: u64,
    steps: &[usize],
    cursor_us: i64,
    prepared: PreparedSource,
) -> (s: Source)
    requires
        forall|i: int| 0 <= i < steps@.len() ==> #[trigger] steps@[i] <= 2,
        call_ensures(
            PreparedSource::prepare_from_cursor,
            (&buffer, source, epoch, steps, cursor_us),
            prepared,
        ),
    ensures
        prepared.source == source,
        prepared.epoch == epoch,
        prepared.frames@.len() == steps@.len(),
        s.pending.len() == 1,
        is_entry_of(s.pending[0], (source, buffer)),
        s.current is None,
        s.cursor_us == cursor_us,
        s.cursor_remainder == 0,
        forall|i: int|
            0 <= i < steps@.len() && #[trigger] steps@[i] > 0 ==> (next_frame(
                source_after(
                    s,
                    asked_by(steps@, i) + steps@[i] - 1,
                    1,
                    buffer.format.sample_rate as int,
                ),
                1,
                buffer.format.sample_rate as int,
            ) matches Some(frame) ==> prepared.frames@[i].sample == frame[0]),
{
    let s = super::super::bounded::lone_source(buffer, source, cursor_us);
    let rate = buffer.format.sample_rate as int;
    let start = Preparing { source: s, last: 0 };
    assert forall|i: int| 0 <= i < steps@.len() && #[trigger] steps@[i] > 0 implies (next_frame(
        source_after(s, asked_by(steps@, i) + steps@[i] - 1, 1, rate),
        1,
        rate,
    ) matches Some(frame) ==> prepared.frames@[i].sample == frame[0]) by {
        lemma_prepared_at(start, steps@, i, rate);
        lemma_asked(steps@, i);
        lemma_requests_add(s, asked_by(steps@, i), 1, 1, rate);
        let before = prepared_after(start, steps@, i, rate);
        a_prepared_frame_takes_its_source_frames(before, steps@[i], rate);
        assert(prepared.frames@[i] == super::super::bounded::prepared_step(
            before,
            steps@[i],
            rate,
        ).1);
    }
    s
}

/// A source that is prepared without a time is played from its own.
pub proof fn a_source_is_prepared_from_its_own_time(
    buffer: AudioBuffer,
    source: u64,
    epoch: u64,
    steps: &[usize],
    prepared: PreparedSource,
    from_cursor: PreparedSource,
)
    requires
        call_ensures(PreparedSource::prepare, (&buffer, source, epoch, steps), prepared),
        call_ensures(
            PreparedSource::prepare_from_cursor,
            (&buffer, source, epoch, steps, buffer.timestamp),
            from_cursor,
        ),
    ensures
        prepared.source == source,
        prepared.epoch == epoch,
        prepared.frames@ =~= from_cursor.frames@,
{
}

/// Copying a prepared source gives its samples from the offset on, as far as there are any and as
/// there is room, with silence behind them, and tells how many there were and what they consume.
pub proof fn copying_gives_the_prepared_samples(
    prepared: PreparedSource,
    offset: usize,
    output: &mut [i32],
    result: (usize, u64),
)
    requires
        call_ensures(copy_prepared, (&prepared, offset, output), result),
    ensures
        result.0 <= old(output)@.len(),
        result.0 == old(output)@.len() || offset + result.0 >= prepared.frames@.len(),
        result.0 > 0 ==> offset + result.0 <= prepared.frames@.len(),
        forall|i: int|
            0 <= i < result.0 ==> #[trigger] final(output)@[i] == prepared.frames@[offset
                + i].sample,
        forall|i: int| result.0 <= i < final(output)@.len() ==> #[trigger] final(output)@[i] == 0,
        result.1 == consumed_by(prepared.frames@, offset as int, result.0 as int),
{
}

/// A device for whole sources outputs their samples one after the other, from where it had got to in
/// the first and from the beginning of every other, with silence behind them that it tells as
/// missing. One that is entered already does nothing.
pub proof fn a_source_device_plays_one_after_the_other(
    device: &mut SourceDevice,
    output: &mut [i32],
    missing: Option<usize>,
)
    requires
        call_ensures(SourceDevice::render, (device, output), missing),
    ensures
        missing is None ==> *final(device) == *old(device) && final(output)@ == old(output)@,
        missing matches Some(m) ==> exists|
            entered: DeviceLane<PreparedSource>,
            budget: usize,
            turns: HeadTurns,
        |
            {
                &&& #[trigger] enters_lane(old(device).lane, entered, budget)
                &&& (#[trigger] turns.counts).len() <= budget
                &&& forall|i: int, k: int|
                    0 <= i < turns.counts.len() && 0 <= k < turns.counts[i]
                        ==> #[trigger] final(output)@[given_before(turns.counts, i) + k]
                        == entered.coming()[i].frames@[(if i == 0 {
                        entered.at() as int
                    } else {
                        0
                    }) + k].sample
                &&& m == final(output)@.len() - given_before(
                    turns.counts,
                    turns.counts.len() as int,
                )
                &&& forall|x: int|
                    final(output)@.len() - m <= x < final(output)@.len()
                        ==> #[trigger] final(output)@[x] == 0
            },
{
    if let Some(m) = missing {
        let (entered, budget, turns) = choose|
            entered: DeviceLane<PreparedSource>,
            budget: usize,
            turns: HeadTurns,
        |
            enters_lane(old(device).lane, entered, budget) && #[trigger] sounds_from(
                *old(device),
                *final(device),
                entered,
                budget,
                turns,
                final(output)@,
                m as int,
            );
        let out = final(output)@;
        assert forall|i: int, k: int|
            0 <= i < turns.counts.len() && 0 <= k < turns.counts[i] implies #[trigger] out[given_before(
            turns.counts,
            i,
        ) + k] == entered.coming()[i].frames@[(if i == 0 {
            entered.at() as int
        } else {
            0
        }) + k].sample by {
            sources_are_heard_one_after_the_other(
                *old(device),
                *final(device),
                entered,
                budget,
                turns,
                final(output)@,
                m as int,
                i,
                k,
            );
        }
        assert(turns.counts.len() <= budget);
        let heard = super::super::bounded::heard(
            entered.coming(),
            entered.at() as int,
            turns.counts,
        );
        assert forall|x: int| out.len() - m <= x < out.len() implies #[trigger] out[x] == 0 by {
            assert(out == heard + Seq::new(m as nat, |k: int| 0i32));
        }
    }
}

/// A device for spans outputs what its spans give, one after the other, with silence behind it, and
/// tells the frames that the spans lacked and those that were not filled. One that is entered already
/// does nothing.
pub proof fn a_span_device_plays_one_after_the_other(
    device: &mut SpanDevice,
    output: &mut [i32],
    channels: usize,
    missing: Option<usize>,
)
    requires
        channels > 0,
        old(output)@.len() as int % channels as int == 0,
        call_ensures(SpanDevice::render_span, (device, output, channels), missing),
    ensures
        missing is None ==> *final(device) == *old(device) && final(output)@ == old(output)@,
        missing matches Some(m) ==> exists|
            entered: DeviceLane<Span>,
            budget: usize,
            turns: Seq<SpanTurn>,
        |
            {
                let (samples, lacking) = turns_heard(entered.coming(), turns, channels as int);
                &&& #[trigger] enters_lane(old(device).lane, entered, budget)
                &&& #[trigger] turns.len() <= budget
                &&& samples.len() <= final(output)@.len()
                &&& forall|x: int|
                    0 <= x < samples.len() ==> #[trigger] final(output)@[x] == samples[x]
                &&& forall|x: int|
                    samples.len() <= x < final(output)@.len() ==> #[trigger] final(output)@[x] == 0
                &&& (m - lacking) * channels == final(output)@.len() - samples.len()
            },
{
    if let Some(m) = missing {
        let (entered, budget, turns) = choose|
            entered: DeviceLane<Span>,
            budget: usize,
            turns: Seq<SpanTurn>,
        |
            enters_lane(old(device).lane, entered, budget) && #[trigger] super::turns_sound_from(
                entered,
                budget,
                final(device).lane,
                turns,
                channels as int,
                final(output)@,
                m as int,
            );
        let out = final(output)@;
        let (samples, lacking) = turns_heard(entered.coming(), turns, channels as int);
        let total = out.len() as int / channels as int;
        let read = super::read_before(
            entered.coming(),
            turns,
            turns.len() as int,
            channels as int,
        );
        assert(out == samples + Seq::new((out.len() - samples.len()) as nat, |i: int| 0i32));
        assert((m - lacking) * channels == out.len() - samples.len()) by (nonlinear_arith)
            requires
                m - lacking == total - read,
                samples.len() == read * channels,
                total == out.len() as int / channels as int,
                out.len() as int % channels as int == 0,
                channels > 0,
        ;
        assert(turns.len() <= budget);
    }
}

/// A device for whole sources goes on where it stopped: what it played to the end, or may not play, is
/// given back, and of the next source it has got as far as it played it, or to its beginning.
pub proof fn a_source_device_goes_on_where_it_stopped(
    device: &mut SourceDevice,
    output: &mut [i32],
    missing: Option<usize>,
)
    requires
        missing is Some,
        call_ensures(SourceDevice::render, (device, output), missing),
    ensures
        exists|
            entered: DeviceLane<PreparedSource>,
            budget: usize,
            turns: HeadTurns,
            retired: int,
        |
            {
                let count = turns.counts.len() as int;
                &&& #[trigger] enters_lane(old(device).lane, entered, budget)
                &&& #[trigger] entered.coming().skip(retired) == final(device).lane.coming()
                &&& (#[trigger] turns.counts).len() <= budget
                &&& 0 <= retired <= count <= retired + 1
                &&& count == 0 ==> final(device).lane.at() == entered.at()
                    && final(device).claimed == old(device).claimed
                &&& count > 0 && retired == count ==> final(device).lane.at() == 0
                    && !final(device).claimed
                &&& retired < count ==> {
                    let begun = if retired == 0 {
                        entered.at() as int
                    } else {
                        0
                    };
                    &&& final(device).lane.at() == begun + turns.counts[retired]
                    &&& final(device).lane.at() < entered.coming()[retired].frames@.len()
                }
            },
{
    let m = missing->0;
    let (entered, budget, turns) = choose|
        entered: DeviceLane<PreparedSource>,
        budget: usize,
        turns: HeadTurns,
    |
        enters_lane(old(device).lane, entered, budget) && #[trigger] sounds_from(
            *old(device),
            *final(device),
            entered,
            budget,
            turns,
            final(output)@,
            m as int,
        );
    let retired = turns.retired(entered.coming(), entered.at() as int, old(device).claimed);
    assert(entered.coming().skip(retired) == final(device).lane.coming());
    assert(turns.counts.len() <= budget);
}

/// A device for spans goes on where it stopped: spans that are read to the end, or are out of use, are
/// given back, and of the next one it has got as far as it was read.
pub proof fn a_span_device_goes_on_where_it_stopped(
    device: &mut SpanDevice,
    output: &mut [i32],
    channels: usize,
    missing: Option<usize>,
)
    requires
        missing is Some,
        call_ensures(SpanDevice::render_span, (device, output, channels), missing),
    ensures
        exists|
            entered: DeviceLane<Span>,
            budget: usize,
            turns: Seq<SpanTurn>,
            retired: int,
        |
            {
                let count = turns.len() as int;
                &&& #[trigger] enters_lane(old(device).lane, entered, budget)
                &&& #[trigger] entered.coming().skip(retired) == final(device).lane.coming()
                &&& #[trigger] turns.len() <= budget
                &&& 0 <= retired <= count <= retired + 1
                &&& count == 0 ==> final(device).lane.at() == entered.at()
                &&& count > 0 && retired == count ==> final(device).lane.at() == 0
                &&& retired < count ==> final(device).lane.at() == turn_read(
                    entered.coming()[retired],
                    turns[retired],
                    channels as int,
                ).0.offset && final(device).lane.at() < entered.coming()[retired].frames@.len()
                    && entered.coming()[retired].channels == channels
                &&& forall|i: int|
                    0 <= i < count ==> (#[trigger] turns[i]).start.offset == if i == 0 {
                        entered.at() as int
                    } else {
                        0
                    }
            },
{
    let m = missing->0;
    let (entered, budget, turns) = choose|
        entered: DeviceLane<Span>,
        budget: usize,
        turns: Seq<SpanTurn>,
    |
        enters_lane(old(device).lane, entered, budget) && #[trigger] super::turns_sound_from(
            entered,
            budget,
            final(device).lane,
            turns,
            channels as int,
            final(output)@,
            m as int,
        );
    let retired = super::turns_retired(entered.coming(), turns, channels as int);
    assert(entered.coming().skip(retired) == final(device).lane.coming());
    assert(turns.len() <= budget);
    let total = final(output)@.len() as int / channels as int;
    assert forall|i: int| 0 <= i < turns.len() implies (#[trigger] turns[i]).start.offset == if i
        == 0 {
        entered.at() as int
    } else {
        0
    } by {
        assert(super::turn_taken(
            entered.coming(),
            entered.at() as int,
            turns,
            channels as int,
            total,
            i,
        ));
    }
}

/// A preparation is made of any sources of one format, numbered upwards, whose frames can be counted.
pub proof fn sources_of_one_format_can_be_prepared(
    sources: Vec<(u64, AudioBuffer)>,
    window_frames: usize,
    preparation: Option<Preparation>,
)
    requires
        sources@.len() > 0,
        window_frames > 0,
        sources@[0].1.format.channels > 0,
        sources@[0].1.format.sample_rate > 0,
        window_frames * sources@[0].1.format.channels <= usize::MAX,
        forall|i: int|
            0 <= i < sources@.len() ==> (#[trigger] sources@[i]).1.format.channels
                == sources@[0].1.format.channels && sources@[i].1.format.sample_rate
                == sources@[0].1.format.sample_rate && 0 < sources@[i].0 < u64::MAX,
        forall|i: int, j: int|
            0 <= i < j < sources@.len() ==> (#[trigger] sources@[i]).0 < (#[trigger] sources@[j]).0,
        super::frames_of(sources@, sources@.len() as int) <= usize::MAX,
        call_ensures(Preparation::with_window_frames, (sources, window_frames), preparation),
    ensures
        preparation is Some,
{
}

/// The frames of sources add up, each counted for its own.
pub proof fn frames_of_sources_add_up(sources: Seq<(u64, AudioBuffer)>, count: int)
    requires
        0 <= count < sources.len(),
    ensures
        super::frames_of(sources, 0) == 0,
        super::frames_of(sources, count + 1) == super::frames_of(sources, count)
            + sources[count].1.frame_count(),
{
}

/// A span that is read in a callback counts what it consumed, makes the source that it reached the
/// current one, and publishes where it has got to: the cadence and the position that it reached, the
/// frames that it visited, and the last frame that was heard, in all channels.
pub proof fn reading_a_span_tells_where_it_is(
    span: Span,
    offset: &mut usize,
    output: &mut [i32],
    callback: &CallbackGuard<'_>,
    progress: &AtomicU64,
    read: Read,
)
    requires
        span.channels > 0,
        call_ensures(super::render_active, (&span, offset, output, callback, progress), read),
    ensures
        exists|outcome: SpanOutcome|
            {
                &&& #[trigger] callback.of().makes_current(outcome.current)
                &&& added(*progress, outcome.consumed)
                &&& *final(offset) == outcome.offset
                &&& read.visited == outcome.visited
                &&& read.missing == outcome.missing
                &&& read.invalidated == outcome.invalidated
                &&& span.checkpoint matches Some(publication) ==> (
                outcome.cadence matches Some(cadence) ==> (
                outcome.position matches Some(position) ==> exists|last: Option<Seq<i32>>|
                    {
                        &&& #[trigger] publication.makes(
                            CheckpointStep::Publish {
                                cadence,
                                position,
                                visited: outcome.visited,
                                last,
                            },
                        )
                        &&& outcome.last_frame is None ==> last is None
                        &&& outcome.last_frame matches Some(frame) ==> (last matches Some(heard)
                            ==> heard.len() == span.channels && forall|c: int|
                            0 <= c < span.channels ==> #[trigger] heard[c] == span.pcm@[frame
                                * span.channels + c])
                        &&& outcome.last_frame matches Some(frame) ==> frame * span.channels
                            + span.channels <= span.pcm@.len() && publication.channels()
                            == span.channels ==> last is Some
                    }))
            },
{
    let (start, outcome, epoch) = choose|start: SpanOutcome, outcome: SpanOutcome, epoch: u64|
        start.offset == *old(offset) && super::begins(span, start) && #[trigger] super::reads(
            span,
            start,
            outcome,
            epoch,
            final(output)@,
        ) && *final(offset) == outcome.offset && read == (Read {
            visited: outcome.visited,
            missing: outcome.missing,
            invalidated: outcome.invalidated,
        }) && super::span_exchanged(*callback.of(), *progress, span, start, outcome, epoch);
    assert(callback.of().makes_current(outcome.current));
    if let Some(publication) = span.checkpoint {
        if let Some(cadence) = outcome.cadence {
            if let Some(position) = outcome.position {
                assert(publication.makes(
                    CheckpointStep::Publish {
                        cadence,
                        position,
                        visited: outcome.visited,
                        last: super::last_read(span, outcome, *publication),
                    },
                ));
                if let Some(frame) = outcome.last_frame {
                    let channels = span.channels as int;
                    assert((frame + 1) * channels == frame * channels + channels)
                        by (nonlinear_arith);
                    if frame * span.channels + span.channels <= span.pcm@.len() {
                        lemma_chunk_bounds(frame as int, frame + 1, channels);
                    }
                }
            }
        }
    }
}

/// A device for whole sources counts what it consumed of each source that it claims, and gives the
/// current one up where it is used up or revoked.
pub proof fn a_source_device_counts_what_it_consumed(
    device: &mut SourceDevice,
    output: &mut [i32],
    missing: Option<usize>,
)
    requires
        missing is Some,
        call_ensures(SourceDevice::render, (device, output), missing),
    ensures
        exists|entered: DeviceLane<PreparedSource>, budget: usize, turns: HeadTurns|
            {
                &&& #[trigger] enters_lane(old(device).lane, entered, budget)
                &&& (#[trigger] turns.counts).len() <= budget
                &&& forall|i: int|
                    0 <= i < turns.counts.len() ==> is_counted(
                        *old(device).gate,
                        *old(device).progress,
                        old(device).claimed && i == 0,
                        entered.coming()[i],
                        if i == 0 {
                            entered.at() as int
                        } else {
                            0
                        },
                        turns.counts[i],
                        #[trigger] turns.founds[i],
                    )
            },
{
    let m = missing->0;
    let (entered, budget, turns) = choose|
        entered: DeviceLane<PreparedSource>,
        budget: usize,
        turns: HeadTurns,
    |
        enters_lane(old(device).lane, entered, budget) && #[trigger] sounds_from(
            *old(device),
            *final(device),
            entered,
            budget,
            turns,
            final(output)@,
            m as int,
        ) && turns.exchanges(
            *old(device).gate,
            *old(device).progress,
            entered.coming(),
            entered.at() as int,
            old(device).claimed,
        );
    assert(turns.counts.len() <= budget);
}

/// What was consumed of a source that is played was added to the progress, and the current source was
/// given up where this one is used up or revoked.
pub open spec fn is_counted(
    gate: ControlGate,
    progress: AtomicU64,
    claimed: bool,
    head: PreparedSource,
    from: int,
    count: int,
    found: HeadFound,
) -> bool {
    let plays = (claimed && !found.revoked) || (!claimed && head.source != 0 && found.won);
    &&& plays ==> added(progress, consumed_by(head.frames@, from, count))
    &&& plays && from + count >= head.frames@.len() ==> gate.releases_current()
    &&& claimed && found.revoked ==> gate.releases_current()
    &&& !claimed && head.source != 0 ==> gate.claims(head.epoch, head.source, found.won)
}

/// An output frame needs the version of its span exactly where no source is current, or the current
/// one has fewer whole frames left than the step takes.
pub proof fn a_frame_needs_its_version_where_a_source_begins(
    p: Progress,
    step: usize,
    channels: int,
    rate: int,
)
    requires
        channels > 0,
        p.source.current matches Some(entry) ==> entry.id != 0 && 0 <= p.source.index
            <= entry.samples.len(),
    ensures
        output_step(p, step, channels, rate).1.requires_epoch <==> (
        p.source.current matches Some(entry) ==> step * channels > entry.samples.len()
            - p.source.index),
{
    if let Some(entry) = p.source.current {
        let left = entry.samples.len() - p.source.index;
        assert(p.source.left() == left);
        assert(step > left / channels <==> step * channels > left) by (nonlinear_arith)
            requires
                channels > 0,
                left >= 0,
        ;
    }
}

} // verus!
