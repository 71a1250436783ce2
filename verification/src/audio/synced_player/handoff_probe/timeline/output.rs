//! What prepared output comes to: which source frames an output frame takes, how a span is read,
//! and what a device for tapes follows.
use super::tape::{
    floor_after, latency_of, lower, next_number, plan_under, tape_frames, timeline_seen,
};
use super::{
    output_after, output_step, past_duplicates, read_frames, read_one, scheduled_after,
    scheduled_steps, spans, Frame, Preparation, Progress, Span, SpanReading,
};
use crate::audio::sync_correction::{
    counters_after, one_frame_in_so_many_is_dropped, one_frame_in_so_many_is_repeated, step_at,
    CadenceCounters, CadenceStep, CorrectionSchedule,
};
use crate::audio::synced_player::ingress::GateView;
use crate::audio::synced_player::preparation::{chunk, lemma_chunk_bounds, source_after};
use crate::audio::synced_player::queue::{next_frame, Source};
use crate::audio::synced_player::reader::ReaderState;
use crate::sync::raw_clock::instant_ns;
use std::time::Instant;
use vstd::prelude::*;

verus! {

/// An output frame of so many source frames: none repeats the last frame; one plays the next, and
/// is silent where there is none; two leave the next out and play the one after it, and repeat the
/// last where there is none. It plays all channels, counts the source frames that it takes, and
/// leads to where the source is after as many requests. Only a silent frame is missing.
pub proof fn an_output_frame_takes_its_source_frames(
    p: Progress,
    step: usize,
    channels: int,
    rate: int,
)
    requires
        step <= 2,
        channels > 0,
        p.output_frames < u64::MAX,
    ensures
        ({
            let (after, frame, samples) = output_step(p, step, channels, rate);
            let first = next_frame(p.source, channels, rate);
            let second = next_frame(source_after(p.source, 1, channels, rate), channels, rate);
            let taken = if step == 2 {
                second
            } else {
                first
            };
            &&& after.source == source_after(p.source, step as int, channels, rate)
            &&& step == 0 ==> samples == p.last && frame.consumed == 0
            &&& step == 1 && first is Some ==> samples == first->0 && frame.consumed == 1
            &&& step == 1 && first is None ==> samples.len() == channels && (forall|c: int|
                0 <= c < channels ==> samples[c] == 0) && frame.consumed == 0
            &&& step == 2 && second is Some ==> samples == second->0
            &&& step == 2 && second is None ==> samples == p.last
            &&& step == 2 ==> frame.consumed == (if first is Some {
                1int
            } else {
                0
            }) + (if second is Some {
                1int
            } else {
                0
            })
            &&& frame.missing <==> step == 1 && first is None
            &&& after.last == if step > 0 && taken is Some {
                taken->0
            } else {
                p.last
            }
            &&& after.output_frames == p.output_frames + 1
            &&& frame.output_index == p.output_frames
            &&& frame.before_current == (match p.source.current {
                Some(entry) => entry.id,
                None => 0,
            })
            &&& frame.before_index == p.source.index as usize
            &&& frame.after_current == (match after.source.current {
                Some(entry) => entry.id,
                None => 0,
            })
            &&& frame.position.current == frame.after_current
            &&& frame.position.retired_through == after.source.retired_through
            &&& frame.position.index == after.source.index as usize
            &&& frame.position.cursor_us == after.source.cursor_us
            &&& frame.position.cursor_remainder == after.source.cursor_remainder
            &&& frame.cadence is None
        }),
{
    reveal_with_fuel(source_after, 3);
}

/// The source frames that so many steps ask for.
pub open spec fn asked_by(steps: Seq<usize>, count: int) -> int
    decreases count,
{
    if count <= 0 {
        0
    } else {
        asked_by(steps, count - 1) + steps[count - 1]
    }
}

pub(crate) proof fn lemma_requests_add(s: Source, a: int, b: int, channels: int, rate: int)
    requires
        a >= 0,
        b >= 0,
    ensures
        source_after(source_after(s, a, channels, rate), b, channels, rate) == source_after(
            s,
            a + b,
            channels,
            rate,
        ),
    decreases b,
{
    if b > 0 {
        lemma_requests_add(s, a, b - 1, channels, rate);
    }
}

pub(crate) proof fn lemma_asked(steps: Seq<usize>, count: int)
    ensures
        asked_by(steps, count) >= 0,
    decreases count,
{
    if count > 0 {
        lemma_asked(steps, count - 1);
    }
}

/// Output leads to where the source is after all that its steps asked for, and is numbered frame
/// by frame.
pub proof fn output_moves_the_source_by_its_steps(
    p: Progress,
    steps: Seq<usize>,
    count: int,
    channels: int,
    rate: int,
)
    requires
        0 <= count <= steps.len(),
        channels > 0,
        forall|i: int| 0 <= i < steps.len() ==> #[trigger] steps[i] <= 2,
        p.output_frames + count <= u64::MAX,
    ensures
        output_after(p, steps, count, channels, rate).source == source_after(
            p.source,
            asked_by(steps, count),
            channels,
            rate,
        ),
        output_after(p, steps, count, channels, rate).output_frames == p.output_frames + count,
    decreases count,
{
    if count > 0 {
        output_moves_the_source_by_its_steps(p, steps, count - 1, channels, rate);
        let before = output_after(p, steps, count - 1, channels, rate);
        an_output_frame_takes_its_source_frames(before, steps[count - 1], channels, rate);
        lemma_asked(steps, count - 1);
        lemma_requests_add(
            p.source,
            asked_by(steps, count - 1),
            steps[count - 1] as int,
            channels,
            rate,
        );
    }
}

/// A span holds the output of its steps: each of its frames has all channels of the source frame
/// that its step plays, where the source has one.
pub proof fn a_span_holds_the_frames_of_its_steps(
    p: Progress,
    steps: Seq<usize>,
    count: int,
    channels: int,
    rate: int,
    frames: Seq<Frame>,
    pcm: Seq<i32>,
    i: int,
    c: int,
)
    requires
        0 <= i < count <= steps.len(),
        0 <= c < channels,
        forall|k: int| 0 <= k < steps.len() ==> #[trigger] steps[k] <= 2,
        p.output_frames + count <= u64::MAX,
        spans(p, steps, count, channels, rate, frames, pcm),
    ensures
        ({
            let from = asked_by(steps, i);
            let plays = next_frame(
                source_after(
                    p.source,
                    if steps[i] == 2 {
                        from + 1
                    } else {
                        from
                    },
                    channels,
                    rate,
                ),
                channels,
                rate,
            );
            &&& steps[i] > 0 ==> (plays matches Some(samples) ==> pcm[i * channels + c]
                == samples[c])
            &&& steps[i] == 1 && plays is None ==> pcm[i * channels + c] == 0
            &&& frames[i].output_index == p.output_frames + i
            &&& frames[i].missing <==> steps[i] == 1 && plays is None
        }),
{
    let before = output_after(p, steps, i, channels, rate);
    output_moves_the_source_by_its_steps(p, steps, i, channels, rate);
    an_output_frame_takes_its_source_frames(before, steps[i], channels, rate);
    lemma_asked(steps, i);
    lemma_requests_add(p.source, asked_by(steps, i), 1, channels, rate);
    lemma_chunk_bounds(i, count, channels);
    assert(chunk(pcm, i, channels) == output_step(before, steps[i], channels, rate).2);
    assert(chunk(pcm, i, channels)[c] == pcm[i * channels + c]);
    assert((Frame { cadence: None, ..frames[i] }) == output_step(
        before,
        steps[i],
        channels,
        rate,
    ).1);
}

proof fn lemma_scheduled(
    schedule: CorrectionSchedule,
    measured: bool,
    counters: CadenceCounters,
    count: int,
)
    requires
        count >= 0,
    ensures
        scheduled_after(schedule, measured, counters, count) == if measured {
            counters_after(schedule, counters, count)
        } else {
            counters
        },
    decreases count,
{
    if count > 0 {
        lemma_scheduled(schedule, measured, counters, count - 1);
    }
}

/// Output under a schedule drops and repeats by the schedule, under a measured timestamp only: of
/// fresh counts it drops one frame in so many, on every frame that completes the count, and where
/// it drops none it repeats one in so many. Every other frame takes one source frame.
pub proof fn scheduled_output_keeps_the_cadence(
    schedule: CorrectionSchedule,
    measured: bool,
    counters: CadenceCounters,
    count: int,
    i: int,
)
    requires
        0 <= i < count,
    ensures
        ({
            let step = scheduled_steps(schedule, measured, counters, count)[i];
            &&& !measured ==> step == 1
            &&& step <= 2
            &&& measured ==> (step == 2 <==> step_at(schedule, counters, i) == CadenceStep::Skip)
            &&& measured ==> (step == 0 <==> step_at(schedule, counters, i) == CadenceStep::Repeat)
            &&& schedule.drop_every_n_frames == 0 ==> step != 2
            &&& schedule.insert_every_n_frames == 0 ==> step != 0
            &&& measured && schedule.drop_every_n_frames > 0 && counters.drop
                == schedule.drop_every_n_frames ==> (step == 2 <==> (i + 1) % (
            schedule.drop_every_n_frames as int) == 0)
            &&& measured && schedule.drop_every_n_frames == 0 && schedule.insert_every_n_frames > 0
                && counters.insert == schedule.insert_every_n_frames ==> (step == 0 <==> (i + 1) % (
            schedule.insert_every_n_frames as int) == 0)
        }),
{
    lemma_scheduled(schedule, measured, counters, i);
    if schedule.drop_every_n_frames > 0 {
        one_frame_in_so_many_is_dropped(schedule, counters, i);
    }
    if schedule.insert_every_n_frames > 0 {
        one_frame_in_so_many_is_repeated(schedule, counters, i);
    }
}

/// A schedule that is followed already keeps its counts; another one begins with its own.
pub proof fn a_new_schedule_begins_its_own_count(
    preparation: Preparation,
    schedule: CorrectionSchedule,
)
    ensures
        schedule == preparation.schedule ==> preparation.counters_under(schedule)
            == preparation.counters,
        schedule != preparation.schedule ==> preparation.counters_under(schedule).insert
            == schedule.insert_every_n_frames && preparation.counters_under(schedule).drop
            == schedule.drop_every_n_frames,
{
}

/// Frames that have been output are passed over, and none that has not: of frames that are
/// numbered one after the other, a reading goes on with the one that comes next, or behind the
/// last one.
pub proof fn a_reading_goes_on_behind_what_was_output(
    frames: Seq<Frame>,
    offset: int,
    output_index: Option<u64>,
)
    requires
        0 <= offset < frames.len(),
        forall|i: int|
            0 <= i < frames.len() ==> (#[trigger] frames[i]).output_index == frames[0].output_index
                + i,
    ensures
        ({
            let next = past_duplicates(frames, offset, output_index);
            &&& offset <= next <= frames.len()
            &&& output_index is None ==> next == offset
            &&& output_index matches Some(actual) ==> {
                &&& actual <= frames[offset].output_index ==> next == offset
                &&& actual > frames[offset].output_index && next < frames.len()
                    ==> frames[next].output_index == actual
                &&& next == frames.len() ==> actual > frames.last().output_index
            }
        }),
{
    assert(frames[offset].output_index == frames[0].output_index + offset);
    assert(frames.last().output_index == frames[0].output_index + frames.len() - 1);
    let next = past_duplicates(frames, offset, output_index);
    if next < frames.len() {
        assert(frames[next].output_index == frames[0].output_index + next);
    }
}

/// A frame is read only where it continues the output: it has the next number, the device is in
/// the source and at the place where it begins, it belongs to the version if it begins a source,
/// and its samples are there. All its channels are read, and it leads to where it says; its source
/// frames are counted. A frame that does not continue ends the reading and puts the span out of
/// use; where none is left, or the numbers are used up, the reading only ends.
pub proof fn a_frame_is_read_where_it_continues(span: Span, r: SpanReading, epoch: u64)
    requires
        span.channels > 0,
        r.offset >= 0,
        r.consumed + (if past_duplicates(span.frames@, r.offset, r.output_index)
            < span.frames@.len() {
            span.frames@[past_duplicates(span.frames@, r.offset, r.output_index)].consumed as int
        } else {
            0
        }) <= u64::MAX,
    ensures
        ({
            let at = past_duplicates(span.frames@, r.offset, r.output_index);
            let (next, samples) = read_one(span, r, epoch);
            let frame = span.frames@[at];
            let there = at < span.frames@.len() && r.output_index != Some(u64::MAX);
            let follows = (r.output_index matches Some(actual) ==> frame.output_index == actual && (
            r.current == 0 || r.source_index == frame.before_index)) && r.current
                == frame.before_current && (frame.requires_epoch ==> epoch == span.epoch) && at
                * span.channels + span.channels <= span.pcm@.len();
            &&& !there ==> next.stopped && samples.len() == 0 && next.invalidated == r.invalidated
            &&& there && !follows ==> next.stopped && next.invalidated && samples.len() == 0
            &&& !(there && follows) ==> next.consumed == r.consumed && next.visited == r.visited
                && next.current == r.current && next.position == r.position && next.output_index
                == r.output_index
            &&& there && follows ==> {
                &&& next.stopped == r.stopped && next.invalidated == r.invalidated
                &&& samples.len() == span.channels
                &&& forall|c: int|
                    0 <= c < span.channels ==> #[trigger] samples[c] == span.pcm@[at * span.channels
                        + c]
                &&& next.offset == at + 1
                &&& next.current == frame.after_current
                &&& next.position == Some(frame.position)
                &&& next.source_index == frame.position.index
                &&& next.cadence == frame.cadence
                &&& next.consumed == r.consumed + frame.consumed
                &&& next.visited == r.visited + 1
                &&& next.missing == r.missing + (if frame.missing {
                    1int
                } else {
                    0
                })
                &&& frame.missing ==> next.last_frame == r.last_frame
                &&& !frame.missing ==> next.last_frame == Some(at)
                &&& r.output_index matches Some(actual) ==> next.output_index == Some(
                    (actual + 1) as u64,
                )
                &&& r.output_index is None ==> next.output_index is None
            }
        }),
{
    let at = past_duplicates(span.frames@, r.offset, r.output_index);
    if at * span.channels + span.channels <= span.pcm@.len() {
        assert(0 <= at * span.channels) by (nonlinear_arith)
            requires
                at >= 0,
                span.channels > 0,
        ;
    }
}

/// A reading is made of whole frames of the span, each heard once and in its order: every output
/// frame has all channels of its frame.
pub proof fn a_reading_is_made_of_span_frames(
    span: Span,
    r: SpanReading,
    count: int,
    epoch: u64,
) -> (places: Seq<int>)
    requires
        span.channels > 0,
        r.offset >= 0,
        count >= 0,
        !r.stopped,
    ensures
        ({
            let (end, samples) = read_frames(span, r, count, epoch);
            let channels = span.channels as int;
            &&& places.len() == end.visited - r.visited
            &&& places.len() <= count
            &&& places.len() < count ==> end.stopped
            &&& samples.len() == places.len() * channels
            &&& end.offset >= r.offset
            &&& forall|k: int|
                0 <= k < places.len() ==> r.offset <= #[trigger] places[k] < span.frames@.len()
                    && places[k] < end.offset && places[k] * channels + channels <= span.pcm@.len()
            &&& forall|j: int, k: int|
                0 <= j < k < places.len() ==> #[trigger] places[j] < #[trigger] places[k]
            &&& forall|k: int, c: int|
                0 <= k < places.len() && 0 <= c < channels ==> samples[k * channels + c]
                    == #[trigger] span.pcm@[places[k] * channels + c]
        }),
    decreases count,
{
    let channels = span.channels as int;
    if count <= 0 {
        assert(0 * channels == 0);
        Seq::empty()
    } else {
        let places = a_reading_is_made_of_span_frames(span, r, count - 1, epoch);
        let (before, output) = read_frames(span, r, count - 1, epoch);
        if before.stopped {
            places
        } else {
            let (after, frame) = read_one(span, before, epoch);
            let at = past_duplicates(span.frames@, before.offset, before.output_index);
            if after.stopped {
                assert(output + frame =~= output);
                places
            } else {
                let more = places.push(at);
                let n = places.len() as int;
                let longer = output + frame;
                assert((n + 1) * channels == n * channels + channels) by (nonlinear_arith);
                assert(0 <= at * channels) by (nonlinear_arith)
                    requires
                        at >= 0,
                        channels > 0,
                ;
                assert forall|k: int, c: int|
                    0 <= k < more.len() && 0 <= c < channels implies longer[k * channels + c]
                    == #[trigger] span.pcm@[more[k] * channels + c] by {
                    if k < n {
                        lemma_chunk_bounds(k, n, channels);
                        assert(more[k] == places[k]);
                        assert(longer[k * channels + c] == output[k * channels + c]);
                    } else {
                        assert(longer[n * channels + c] == frame[c]);
                    }
                }
                more
            }
        }
    }
}

/// A tape has as many frames as are asked for, and no more than a window.
pub proof fn a_tape_is_no_longer_than_a_window(preparation: Preparation, count: usize)
    ensures
        tape_frames(preparation, count) <= count,
        tape_frames(preparation, count) <= preparation.window_frames,
        tape_frames(preparation, count) == count || tape_frames(preparation, count)
            == preparation.window_frames,
{
}

/// The latency of an output is how far ahead of its capture it is presented, in nanoseconds, and
/// there is none where it is presented before.
pub proof fn a_latency_lies_ahead_of_the_capture(
    captured_at: Instant,
    presentation: Option<Instant>,
)
    ensures
        latency_of(captured_at, presentation) is Some <==> (presentation matches Some(at)
            && instant_ns(at) >= instant_ns(captured_at)),
        latency_of(captured_at, presentation) matches Some(ns) ==> (instant_ns(presentation->0)
            - instant_ns(captured_at) <= u64::MAX ==> ns == instant_ns(presentation->0)
            - instant_ns(captured_at)),
{
}

/// The latency floor is the lowest that was measured since the last clear.
pub proof fn the_latency_floor_is_the_lowest(
    before: Option<u64>,
    view: GateView,
    measured: Option<u64>,
)
    ensures
        ({
            let after = floor_after(before, view, measured);
            let known = if view.says().revoked {
                None
            } else {
                before
            };
            &&& measured is None ==> after == known
            &&& measured matches Some(ns) ==> (after matches Some(floor) && floor <= ns && (known
                matches Some(k) ==> floor <= k) && (floor == ns || Some(floor) == known))
        }),
        forall|serial: u64| serial < u64::MAX ==> #[trigger] next_number(serial) == serial + 1,
        next_number(u64::MAX) == u64::MAX,
        forall|floor: u64, ns: u64|
            (#[trigger] lower(Some(floor), ns)) == Some(
                if floor <= ns {
                    floor
                } else {
                    ns
                },
            ),
{
}

/// A device on a timeline of its own follows the plan that is found for it, and none where that is
/// a reanchor or no plan. Where nothing is known it goes on as it is; on a new timeline it then
/// changes nothing. A clear or a new timeline that it sees begins a timeline at that version.
pub proof fn a_device_follows_the_plan_of_its_timeline(
    reader: ReaderState,
    seen: GateView,
    found: Option<Option<CorrectionSchedule>>,
)
    ensures
        timeline_seen(reader, seen) == if seen.says().revoked || seen.says().reanchored {
            seen.says().epoch
        } else {
            reader.timeline
        },
        found matches Some(Some(plan)) ==> plan_under(reader, seen, found) == if plan.reanchor {
            None
        } else {
            Some(plan)
        },
        found == Some(None::<CorrectionSchedule>) ==> plan_under(reader, seen, found) is None,
        found is None && timeline_seen(reader, seen) == reader.timeline ==> plan_under(
            reader,
            seen,
            found,
        ) == Some(reader.schedule),
        found is None && timeline_seen(reader, seen) != reader.timeline ==> (plan_under(
            reader,
            seen,
            found,
        ) matches Some(plan) && plan.insert_every_n_frames == 0 && plan.drop_every_n_frames == 0
            && !plan.reanchor),
{
}

} // verus!
