//! What tapes hold and what a device for tapes plays, told of the source and the output.
use super::checkpoint::{Cadence, CheckpointStep};
use super::feedback::{
    Observation, PlanMailbox, ValidatedObservation, ValidatedPlanMailbox, ValidatedPlanReader,
};
use super::tape::{
    gives_nothing, holds_next, moved_on, played, prepare_tape, tape_frames, TapeDevice,
    TapePreparation,
};
use super::Preparation;
use crate::audio::sync_correction::{CadenceCounters, CorrectionSchedule};
use crate::audio::synced_player::handoff_probe::start::StartDecision;
use crate::audio::synced_player::ingress::{CallbackGuard, ControlGate, GateView};
use crate::audio::synced_player::preparation::{fills, lemma_chunk_bounds, source_after, Window};
use crate::audio::synced_player::reader::{
    a_rendering_is_made_of_source_frames, a_rendering_keeps_its_plan_and_reports_where_it_began,
    composed, renders, steps_of, Heard, Reached, Rendered, Standing,
};
use crate::audio::synced_player::ring::Inlet;
use crate::audio::synced_player::shared::{got_u64, put_u64};
use crate::audio::synced_player::transport::{enters_lane, DeviceSide};
use crate::audio::synced_player::windows::{a_window_holds_what_the_source_gives, holds_frame};
use std::time::Instant;
use vstd::prelude::*;

verus! {

/// A tape holds what a preparation gives next: at most so many frames, each with all its channels,
/// and fewer only where the source has no more.
pub open spec fn taped(preparation: Preparation, frames: int, tape: Window) -> bool {
    let s = preparation.cursor.source();
    let channels = preparation.channels as int;
    let rate = preparation.rate as int;
    &&& tape.frames@.len() == frames
    &&& tape.pcm@.len() == frames * channels
    &&& tape.valid <= frames
    &&& forall|k: int| 0 <= k < tape.valid ==> #[trigger] holds_frame(s, tape, k, channels, rate)
    &&& tape.valid < frames ==> crate::audio::synced_player::queue::next_frame(
        source_after(s, tape.valid as int, channels, rate),
        channels,
        rate,
    ) is None
}

/// A preparation that gave a tape is behind what was asked of it, has output as many frames as were
/// asked for, and remembers the last frame that it gave.
pub open spec fn is_behind(before: Preparation, after: Preparation, frames: int, tape: Window) -> bool {
    let channels = before.channels as int;
    &&& after.output_frames == before.output_frames + frames
    &&& after.cursor.source() == source_after(
        before.cursor.source(),
        tape.valid + (if tape.valid < frames {
            1int
        } else {
            0
        }),
        channels,
        before.rate as int,
    )
    &&& tape.valid == 0 ==> after.last@ == before.last@
    &&& tape.valid > 0 ==> after.last@.len() == channels && forall|c: int|
        0 <= c < channels ==> #[trigger] after.last@[c] == tape.pcm@[(tape.valid - 1) * channels + c]
    &&& after.channels == before.channels && after.rate == before.rate
    &&& after.schedule == before.schedule && after.counters == before.counters
}

proof fn lemma_taped(before: Preparation, frames: int, tape: Window)
    requires
        before.channels > 0,
        holds_next(before, frames, tape),
    ensures
        taped(before, frames, tape),
{
    let empty = choose|empty: Window| #[trigger]
        super::tape::blank(empty, frames, before.channels as int) && fills(
            before.cursor.source(),
            empty,
            tape,
            before.channels as int,
            before.rate as int,
        );
    a_window_holds_what_the_source_gives(
        before.cursor.source(),
        empty,
        tape,
        before.channels as int,
        before.rate as int,
    );
}

proof fn lemma_behind(before: Preparation, after: Preparation, frames: int, tape: Window)
    requires
        before.channels > 0,
        taped(before, frames, tape),
        moved_on(before, after, frames, tape),
    ensures
        is_behind(before, after, frames, tape),
{
    if tape.valid > 0 {
        lemma_chunk_bounds(tape.valid - 1, frames, before.channels as int);
    }
}

/// A tape is made from where the preparation is: it holds the next frames, at most as many as were
/// asked for and as a window has, and says of which version and of which source frames it is. The
/// preparation goes on behind it.
pub proof fn a_tape_holds_what_comes_next(
    preparation: &mut Preparation,
    epoch: u64,
    source_base: u64,
    count: usize,
    tape: Window,
)
    requires
        old(preparation).channels > 0,
        call_ensures(prepare_tape, (preparation, epoch, source_base, count), tape),
    ensures
        ({
            let frames = if count < old(preparation).window_frames {
                count as int
            } else {
                old(preparation).window_frames as int
            };
            &&& taped(*old(preparation), frames, tape)
            &&& is_behind(*old(preparation), *final(preparation), frames, tape)
        }),
        tape.epoch == epoch,
        tape.source_base == source_base,
        old(preparation).cursor.initialized ==> tape.cursor_before == Some(
            old(preparation).cursor.cursor_us,
        ),
{
    let frames = tape_frames(*old(preparation), count);
    lemma_taped(*old(preparation), frames, tape);
    lemma_behind(*old(preparation), *final(preparation), frames, tape);
}

/// A pump publishes one tape or none. One that waits goes first, as it is. Otherwise the next one is
/// made, of the version and the source frames that the preparation is at, and the source frames go on
/// behind it; one that holds nothing is not published. What cannot be published waits.
pub proof fn a_pump_publishes_the_next_tape(
    tapes: &mut TapePreparation,
    count: usize,
    published: bool,
)
    requires
        old(tapes).source matches Some(source) ==> source.channels > 0,
        call_ensures(TapePreparation::pump, (tapes, count), published),
    ensures
        ({
            let sent = old(tapes).pipe.outgoing().sent() as int;
            let stream = old(tapes).pipe.outgoing().stream();
            &&& final(tapes).epoch == old(tapes).epoch
            &&& published ==> final(tapes).pipe.outgoing().sent() == sent + 1
            &&& !published ==> final(tapes).pipe.outgoing().sent() == sent
            &&& published ==> final(tapes).pending is None
            &&& old(tapes).pending matches Some(waiting) ==> {
                &&& published ==> stream[sent] == waiting
                &&& !published ==> final(tapes).pending == Some(waiting)
                &&& final(tapes).source == old(tapes).source
                &&& final(tapes).source_base == old(tapes).source_base
            }
            &&& old(tapes).pending is None && old(tapes).source is None ==> !published
            &&& old(tapes).pending is None && old(tapes).source is Some && published ==> {
                let source = old(tapes).source->0;
                let tape = stream[sent];
                &&& taped(source, tape_frames(source, count), tape)
                &&& final(tapes).source matches Some(after) && is_behind(
                    source,
                    after,
                    tape_frames(source, count),
                    tape,
                )
                &&& tape.epoch == old(tapes).epoch
                &&& tape.source_base == old(tapes).source_base
                &&& final(tapes).source_base == old(tapes).source_base + tape.valid
                &&& !gives_nothing(tape)
            }
            &&& old(tapes).pending is None && !published ==> (final(tapes).pending matches Some(
                tape,
            ) ==> tape.epoch == old(tapes).epoch && tape.source_base == old(tapes).source_base
                && final(tapes).source_base == old(tapes).source_base + tape.valid)
        }),
{
    if old(tapes).pending is None && old(tapes).source is Some {
        let source = old(tapes).source->0;
        let frames = tape_frames(source, count);
        if source.output_frames + frames <= u64::MAX {
            let tape = choose|tape: Window| #[trigger]
                holds_next(source, frames, tape) && tape.epoch == old(tapes).epoch
                    && tape.source_base == old(tapes).source_base && moved_on(
                    source,
                    final(tapes).source->0,
                    frames,
                    tape,
                ) && if gives_nothing(tape) || old(tapes).source_base + tape.valid > u64::MAX {
                    !published && final(tapes).pending is None
                } else {
                    final(tapes).source_base == old(tapes).source_base + tape.valid
                        && super::tape::handed_over(*old(tapes), *final(tapes), tape, published)
                };
            lemma_taped(source, frames, tape);
            lemma_behind(source, final(tapes).source->0, frames, tape);
        }
    }
}

/// A reset begins anew with the preparation that was made for it, of the version and at the source
/// frames that were given, with nothing waiting.
pub proof fn a_reset_begins_with_its_snapshot<F: FnOnce() -> Preparation>(
    tapes: &mut TapePreparation,
    epoch: u64,
    source_base: u64,
    snapshot: F,
)
    requires
        call_ensures(TapePreparation::reset::<F>, (tapes, epoch, source_base, snapshot), ()),
    ensures
        final(tapes).epoch == epoch,
        final(tapes).source_base == source_base,
        final(tapes).pending is None,
        final(tapes).source matches Some(source) && call_ensures(snapshot, (), source),
        final(tapes).pipe == old(tapes).pipe,
{
}

/// What a device played: whole source frames, repeats and silence, as its windows and its cadence
/// have it, from the frames that were counted up to those that are counted then. It stays on its
/// timeline unless control announces a new one, and follows the plan where the time was measured.
pub open spec fn plays_the_source(
    gate: ControlGate,
    before: TapeDevice,
    after: TapeDevice,
    measured: bool,
    wanted: Option<CorrectionSchedule>,
    output: Seq<i32>,
    missing: int,
) -> bool {
    exists|
        heard: Seq<Heard>,
        standings: Seq<Standing>,
        counters: CadenceCounters,
        entered: DeviceSide,
        budget: usize,
        view: GateView,
    |
        #![trigger
            heard.len(),
            standings.len(),
            counters.drop,
            enters_lane(before.pipe, entered, budget),
            gate.shows(view)
        ]
        {
        let frames = output.len() as int / before.reader@.channels();
        let notice = view.says().revoked || view.says().reanchored;
        &&& enters_lane(before.pipe, entered, budget)
        &&& gate.shows(view)
        &&& composed(
            steps_of(after.reader@.schedule, measured, counters, frames),
            heard,
            standings,
            entered.coming(),
            budget as int,
            if view.says().reanchored {
                view.says().epoch
            } else {
                before.reader@.minimum_epoch
            },
            if view.says().revoked {
                Seq::new(before.reader@.last.len(), |i: int| 0i32)
            } else {
                before.reader@.last
            },
            output,
        )
        &&& got_u64(*before.progress, standings[0].at as u64)
        &&& put_u64(*before.progress, standings[frames].at as u64)
        &&& standings[0].missing == 0
        &&& standings[frames].missing == missing
        &&& after.reader@.timeline == if notice {
            view.says().epoch
        } else {
            before.reader@.timeline
        }
        &&& measured ==> (wanted matches Some(plan) ==> after.reader@.schedule == plan)
        &&& !measured && !notice && wanted is Some ==> after.reader@.schedule
            == before.reader@.schedule
    }
}

proof fn lemma_plays(
    gate: &ControlGate,
    before: TapeDevice,
    after: TapeDevice,
    measured: bool,
    wanted: Option<CorrectionSchedule>,
    output: Seq<i32>,
    missing: usize,
    latency: Option<u64>,
)
    requires
        before.reader@.channels() > 0,
        output.len() as int % before.reader@.channels() == 0,
        played(*gate, before, after, measured, wanted, output, missing, latency),
    ensures
        plays_the_source(*gate, before, after, measured, wanted, output, missing as int),
{
    let (entered, budget, left, view, started, reached, rendered) = choose|
        entered: DeviceSide,
        budget: usize,
        left: usize,
        view: GateView,
        started: Reached,
        reached: Reached,
        rendered: Rendered,
    | #[trigger]
        renders(
            before.reader@,
            after.reader@,
            entered,
            after.pipe,
            budget,
            left,
            view,
            started,
            reached,
            measured,
            wanted,
            output,
            rendered,
        ) && enters_lane(before.pipe, entered, budget) && super::tape::passed_on(
            *gate,
            before,
            after.reader@,
            view,
            started,
            reached,
            super::tape::output_frames(before, output),
        ) && missing == rendered.missing;
    let (heard, standings, counters) = a_rendering_is_made_of_source_frames(
        before.reader@,
        after.reader@,
        entered,
        after.pipe,
        budget,
        left,
        view,
        started,
        reached,
        measured,
        wanted,
        output,
        rendered,
    );
    a_rendering_keeps_its_plan_and_reports_where_it_began(
        before.reader@,
        after.reader@,
        entered,
        after.pipe,
        budget,
        left,
        view,
        started,
        reached,
        measured,
        wanted,
        output,
        rendered,
    );
    assert(heard.len() >= 0 && standings.len() >= 0 && counters.drop >= 0);
}

/// Output that is silent in all channels.
pub open spec fn is_silent(output: Seq<i32>) -> bool {
    forall|i: int| 0 <= i < output.len() ==> #[trigger] output[i] == 0
}

/// A device that is entered plays its source under the plan that it is given. A closed one is silent,
/// lacks every frame, and does not change; one that is entered already does nothing at all.
pub proof fn a_tape_device_plays_its_source(
    device: &mut TapeDevice,
    output: &mut [i32],
    measured: bool,
    wanted: CorrectionSchedule,
    missing: Option<usize>,
)
    requires
        old(device).reader@.channels() > 0,
        old(output)@.len() as int % old(device).reader@.channels() == 0,
        call_ensures(TapeDevice::render, (device, output, measured, wanted), missing),
    ensures
        missing is None ==> *final(device) == *old(device) && final(output)@ == old(output)@,
        missing matches Some(count) ==> {
            ||| {
                &&& old(device).owner is Some && old(device).finds_closed(true)
                &&& is_silent(final(output)@)
                &&& *final(device) == *old(device)
                &&& count == final(output)@.len() as int / old(device).reader@.channels()
            }
            ||| plays_the_source(
                *old(device).gate,
                *old(device),
                *final(device),
                measured,
                Some(wanted),
                final(output)@,
                count as int,
            )
        },
{
    if let Some(count) = missing {
        if !(super::tape::silenced(*old(device), *final(device), final(output)@) && count
            == super::tape::output_frames(*old(device), final(output)@)) {
            lemma_plays(
                &*old(device).gate,
                *old(device),
                *final(device),
                measured,
                Some(wanted),
                final(output)@,
                count,
                None,
            );
        }
    }
}

/// The same under a plan that was published for its timeline.
pub proof fn a_tape_device_plays_under_a_published_plan(
    device: &mut TapeDevice,
    output: &mut [i32],
    measured: bool,
    plans: &PlanMailbox,
    missing: Option<usize>,
)
    requires
        old(device).reader@.channels() > 0,
        old(output)@.len() as int % old(device).reader@.channels() == 0,
        call_ensures(TapeDevice::render_published, (device, output, measured, plans), missing),
    ensures
        missing is None ==> *final(device) == *old(device) && final(output)@ == old(output)@,
        missing matches Some(count) ==> {
            ||| is_silent(final(output)@) && *final(device) == *old(device) && count
                == final(output)@.len() as int / old(device).reader@.channels()
            ||| exists|wanted: Option<CorrectionSchedule>|
                super::tape::looked_up(*old(device).gate, *plans, old(device).reader@, wanted)
                    && #[trigger] plays_the_source(
                    *old(device).gate,
                    *old(device),
                    *final(device),
                    measured,
                    wanted,
                    final(output)@,
                    count as int,
                )
        },
{
    if let Some(count) = missing {
        if !(super::tape::silenced(*old(device), *final(device), final(output)@) && count
            == super::tape::output_frames(*old(device), final(output)@)) {
            lemma_found(
                &*old(device).gate,
                *plans,
                *old(device),
                *final(device),
                measured,
                final(output)@,
                count,
            );
        }
    }
}

proof fn lemma_found(
    gate: &ControlGate,
    plans: PlanMailbox,
    before: TapeDevice,
    after: TapeDevice,
    measured: bool,
    output: Seq<i32>,
    missing: usize,
)
    requires
        before.reader@.channels() > 0,
        output.len() as int % before.reader@.channels() == 0,
        super::tape::followed_found(*gate, plans, before, after, measured, output, missing),
    ensures
        exists|wanted: Option<CorrectionSchedule>|
            super::tape::looked_up(*gate, plans, before.reader@, wanted) && #[trigger]
                plays_the_source(*gate, before, after, measured, wanted, output, missing as int),
{
    let wanted = choose|wanted: Option<CorrectionSchedule>|
        super::tape::looked_up(*gate, plans, before.reader@, wanted) && #[trigger] played(
            *gate,
            before,
            after,
            measured,
            wanted,
            output,
            missing,
            None,
        );
    lemma_plays(gate, before, after, measured, wanted, output, missing, None);
    assert(plays_the_source(*gate, before, after, measured, wanted, output, missing as int));
}

/// A device with a start plays nothing but silence until the start lets it, and changes nothing
/// then.
pub proof fn a_tape_device_waits_for_its_start<S: StartDecision>(
    device: &mut TapeDevice,
    output: &mut [i32],
    presentation_zone_us: Option<i64>,
    measured: bool,
    plans: &PlanMailbox,
    start: &S,
    missing: Option<usize>,
)
    requires
        old(device).reader@.channels() > 0,
        old(output)@.len() as int % old(device).reader@.channels() == 0,
        call_ensures(
            TapeDevice::render_scheduled::<S>,
            (device, output, presentation_zone_us, measured, plans, start),
            missing,
        ),
    ensures
        missing is None ==> *final(device) == *old(device) && (final(output)@ == old(output)@
            || is_silent(final(output)@)),
        missing matches Some(count) ==> old(device).finds_closed(false) && exists|
            wanted: Option<CorrectionSchedule>,
        |
            super::tape::looked_up(*old(device).gate, *plans, old(device).reader@, wanted)
                && #[trigger] plays_the_source(
                *old(device).gate,
                *old(device),
                *final(device),
                measured,
                wanted,
                final(output)@,
                count as int,
            ),
{
    if let Some(count) = missing {
        lemma_found(
            &*old(device).gate,
            *plans,
            *old(device),
            *final(device),
            measured,
            final(output)@,
            count,
        );
    }
}

/// A device that reports tells, once for a callback that played, its number, its timeline, the plan
/// that it followed, the source time that it began with and the presentation. It numbers its
/// callbacks one after the other.
pub proof fn a_tape_device_reports_what_it_played(
    device: &mut TapeDevice,
    output: &mut [i32],
    presentation: Option<Instant>,
    plans: &PlanMailbox,
    feedback: &mut Inlet<Observation>,
    result: Option<(usize, bool)>,
)
    requires
        old(device).reader@.channels() > 0,
        old(output)@.len() as int % old(device).reader@.channels() == 0,
        call_ensures(
            TapeDevice::render_feedback,
            (device, output, presentation, plans, feedback),
            result,
        ),
    ensures
        result is None ==> *final(device) == *old(device) && final(output)@ == old(output)@,
        result matches Some((count, published)) ==> {
            ||| is_silent(final(output)@) && *final(device) == *old(device) && !published && count
                == final(output)@.len() as int / old(device).reader@.channels()
            ||| {
                &&& old(device).feedback_serial < u64::MAX ==> final(device).feedback_serial
                    == old(device).feedback_serial + 1
                &&& final(device).feedback_origin is Some && old(feedback).room() > 0 ==> published
                &&& exists|wanted: Option<CorrectionSchedule>|
                    super::tape::looked_up(*old(device).gate, *plans, old(device).reader@, wanted)
                        && #[trigger] plays_the_source(
                        *old(device).gate,
                        *old(device),
                        *final(device),
                        presentation is Some,
                        wanted,
                        final(output)@,
                        count as int,
                    )
            }
        },
        (result matches Some((_, true))) ==> final(feedback).sent() == old(feedback).sent() + 1 && {
            let report = old(feedback).stream()[old(feedback).sent() as int];
            &&& Some(report.source_cursor_us) == final(device).feedback_origin
            &&& report.serial == final(device).feedback_serial
            &&& report.timeline == final(device).reader@.timeline
            &&& report.actual_schedule == final(device).reader@.schedule
            &&& report.presentation == presentation
        },
        !(result matches Some((_, true))) ==> final(feedback).sent() == old(feedback).sent(),
{
    if let Some((count, published)) = result {
        if !(super::tape::silenced(*old(device), *final(device), final(output)@) && count
            == super::tape::output_frames(*old(device), final(output)@) && !published) {
            lemma_found(
                &*old(device).gate,
                *plans,
                *old(device),
                *final(device),
                presentation is Some,
                final(output)@,
                count,
            );
        }
    }
}

/// A device that goes by validated plans plays its source, keeps the lowest latency, and reports as
/// the others do, with that latency and the reset that it has read.
pub proof fn a_validated_device_reports_what_it_played(
    device: &mut TapeDevice,
    output: &mut [i32],
    captured_at: Instant,
    presentation: Option<Instant>,
    endpoint_now: i64,
    plans: &ValidatedPlanMailbox,
    reader: &mut ValidatedPlanReader,
    feedback: &mut Inlet<ValidatedObservation>,
    result: Option<(usize, bool)>,
)
    requires
        old(device).reader@.channels() > 0,
        old(output)@.len() as int % old(device).reader@.channels() == 0,
        call_ensures(
            TapeDevice::render_validated_feedback,
            (device, output, captured_at, presentation, endpoint_now, plans, reader, feedback),
            result,
        ),
    ensures
        result is None ==> *final(device) == *old(device) && final(output)@ == old(output)@,
        result matches Some((count, published)) ==> {
            ||| is_silent(final(output)@) && *final(device) == *old(device) && !published && count
                == final(output)@.len() as int / old(device).reader@.channels()
            ||| {
                &&& old(device).feedback_serial < u64::MAX ==> final(device).feedback_serial
                    == old(device).feedback_serial + 1
                &&& final(device).feedback_origin is Some && old(feedback).room() > 0 ==> published
                &&& exists|wanted: Option<CorrectionSchedule>| #[trigger]
                    plays_the_source(
                        *old(device).gate,
                        *old(device),
                        *final(device),
                        super::tape::latency_of(captured_at, presentation) is Some,
                        wanted,
                        final(output)@,
                        count as int,
                    )
            }
        },
        (result matches Some((_, true))) ==> final(feedback).sent() == old(feedback).sent() + 1 && {
            let report = old(feedback).stream()[old(feedback).sent() as int];
            &&& Some(report.input.source_cursor_us) == final(device).feedback_origin
            &&& report.input.serial == final(device).feedback_serial
            &&& report.input.timeline == final(device).reader@.timeline
            &&& report.input.actual_schedule == final(device).reader@.schedule
            &&& report.latency_floor_ns == final(device).latency_floor_ns
            &&& report.reset_epoch == final(reader).memory().reset_epoch
        },
        !(result matches Some((_, true))) ==> final(feedback).sent() == old(feedback).sent(),
{
    if let Some((count, published)) = result {
        if !(super::tape::silenced(*old(device), *final(device), final(output)@) && count
            == super::tape::output_frames(*old(device), final(output)@) && !published) {
            let latency = super::tape::latency_of(captured_at, presentation);
            let seen = choose|
                reading: Option<super::feedback::PlanReading>,
                seen: GateView,
                plan: Option<Option<CorrectionSchedule>>,
            |
                old(device).gate.shows(seen) && plans.gives(
                    super::tape::timeline_seen(old(device).reader@, seen),
                    reading,
                ) && played(
                    *old(device).gate,
                    *old(device),
                    *final(device),
                    latency is Some,
                    #[trigger] super::tape::plan_under(old(device).reader@, seen, plan),
                    final(output)@,
                    count,
                    latency,
                ) && #[trigger] plans.gives(
                    super::tape::timeline_seen(old(device).reader@, seen),
                    reading,
                );
            let wanted = super::tape::plan_under(old(device).reader@, seen.1, seen.2);
            lemma_plays(
                &*old(device).gate,
                *old(device),
                *final(device),
                latency is Some,
                wanted,
                final(output)@,
                count,
                latency,
            );
            assert(plays_the_source(
                *old(device).gate,
                *old(device),
                *final(device),
                latency is Some,
                wanted,
                final(output)@,
                count as int,
            ));
        }
    }
}

/// A device for tapes tells where it is: it acknowledges a new timeline and gives the current source up
/// on a clear, and publishes the position that it reached, if it has one, with the cadence that it
/// follows, the frames that it output and the last one.
pub proof fn a_tape_device_tells_where_it_is(
    device: &mut TapeDevice,
    callback: &CallbackGuard<'_>,
    output: &mut [i32],
    measured: bool,
    wanted: Option<CorrectionSchedule>,
    missing: usize,
)
    requires
        old(device).reader@.channels() > 0,
        call_ensures(
            TapeDevice::render_active,
            (device, callback, output, measured, wanted),
            missing,
        ),
    ensures
        exists|view: GateView|
            {
                &&& #[trigger] callback.of().shows(view)
                &&& view.says().reanchored ==> callback.of().acknowledges()
                &&& view.says().revoked ==> callback.of().releases_current()
                &&& final(device).reader@.position matches Some(position)
                    ==> old(device).checkpoint.makes(
                    CheckpointStep::Publish {
                        cadence: Cadence {
                            schedule: final(device).reader@.schedule,
                            insert_counter: final(device).reader@.counters.insert,
                            drop_counter: final(device).reader@.counters.drop,
                        },
                        position,
                        visited: (final(output)@.len() as int / old(device).reader@.channels())
                            as usize,
                        last: Some(final(device).reader@.last),
                    },
                )
            },
{
}

/// A pump publishes where it can: what waits under a free credit and with room, and else the next tape
/// where the source has a frame left.
pub proof fn a_pump_publishes_where_it_can(
    tapes: &mut TapePreparation,
    count: usize,
    published: bool,
)
    requires
        old(tapes).pipe.free() > 0,
        old(tapes).pipe.outgoing().room() > 0,
        old(tapes).source matches Some(source) ==> source.channels > 0,
        call_ensures(TapePreparation::pump, (tapes, count), published),
    ensures
        old(tapes).pending is Some ==> published,
        old(tapes).pending is None ==> (old(tapes).source matches Some(source) ==> count > 0
            && source.window_frames > 0 && source.output_frames + source.window_frames <= u64::MAX
            && old(tapes).source_base + source.window_frames <= u64::MAX
            && crate::audio::synced_player::queue::next_frame(
            source.cursor.source(),
            source.channels as int,
            source.rate as int,
        ) is Some ==> published),
{
    if old(tapes).pending is None && old(tapes).source is Some {
        let source = old(tapes).source->0;
        let frames = tape_frames(source, count);
        if count > 0 && source.window_frames > 0 && source.output_frames + source.window_frames
            <= u64::MAX {
            let tape = choose|tape: Window| #[trigger]
                holds_next(source, frames, tape) && tape.epoch == old(tapes).epoch
                    && tape.source_base == old(tapes).source_base && moved_on(
                    source,
                    final(tapes).source->0,
                    frames,
                    tape,
                ) && if gives_nothing(tape) || old(tapes).source_base + tape.valid > u64::MAX {
                    !published && final(tapes).pending is None
                } else {
                    final(tapes).source_base == old(tapes).source_base + tape.valid
                        && super::tape::handed_over(*old(tapes), *final(tapes), tape, published)
                };
            lemma_taped(source, frames, tape);
            if tape.valid == 0 {
                assert(source_after(
                    source.cursor.source(),
                    0,
                    source.channels as int,
                    source.rate as int,
                ) == source.cursor.source());
            }
        }
    }
}

} // verus!
