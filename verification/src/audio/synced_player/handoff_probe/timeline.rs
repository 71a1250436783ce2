//! Spans of final output: corrected before they are handed over.
//!
//! A corrected output frame may take two source frames, or none, and those may
//! belong to different sources; so a span is made of output frames, each with the
//! position that it leads to.
pub mod checkpoint;
pub mod feedback;
pub mod measurement;
pub mod output;
pub mod preparing;
pub mod reporting;
pub mod tape;
pub mod taping;

use crate::audio::sync_correction::{
    cadence_step, next_cadence_step, CadenceCounters, CadenceStep, CorrectionSchedule,
};
use super::bounded::begun_at;
use crate::audio::synced_player::ingress::checkpoint::SourcePosition;
use crate::audio::synced_player::ingress::control::control;
use crate::audio::synced_player::ingress::{CallbackGuard, ControlGate, GateView};
use crate::audio::synced_player::preparation::{
    chunk, holds, lemma_chunk_bounds, lemma_consumed_follows, lemma_follows_well_formed,
    position_of, reconciled,
};
use crate::audio::synced_player::queue::{
    consumed, copy_samples, next_frame, PlaybackQueue, QueuedAudioBuffer, Source,
};
use crate::audio::synced_player::reader::fill_silent;
use crate::audio::synced_player::shared::{added, added_to, made_u64};
use crate::audio::synced_player::transport::{enters_lane, DeviceLane};
use crate::audio::AudioBuffer;
use checkpoint::{Cadence, CheckpointStep, PublishedCheckpoint, Snapshot};
use std::sync::atomic::{AtomicU64, Ordering};
use std::sync::Arc;
use vstd::prelude::*;

verus! {

/// One output frame: its number, the state that it starts from, the source frames
/// that it takes, and the position that it leads to.
#[derive(Clone, Copy, Debug, PartialEq, Eq, Structural)]
pub struct Frame {
    pub output_index: u64,
    pub before_index: usize,
    pub consumed: u64,
    pub before_current: u64,
    pub after_current: u64,
    pub requires_epoch: bool,
    pub missing: bool,
    pub cadence: Option<Cadence>,
    pub position: SourcePosition,
}

/// Output frames with their samples, prepared for one version. Its lifetime is let go of
/// where the span is freed.
pub struct Span {
    pub epoch: u64,
    pub channels: usize,
    pub frames: Vec<Frame>,
    pub pcm: Vec<i32>,
    pub lifetime: Option<Arc<()>>,
    pub checkpoint: Option<Arc<PublishedCheckpoint>>,
}

/// Output being prepared: the source, the frame output last, and the number of the
/// next one.
#[verifier::ext_equal]
pub struct Progress {
    pub source: Source,
    pub last: Seq<i32>,
    pub output_frames: u64,
}

/// One output frame of so many source frames: 0 repeats the last one, 1 follows,
/// and 2 leaves one out, repeating the last where nothing follows. Only a frame
/// that follows can be missing.
pub open spec fn output_step(p: Progress, step: usize, channels: int, rate: int) -> (
    Progress,
    Frame,
    Seq<i32>,
) {
    let between = if step == 2 {
        consumed(p.source, channels, rate)
    } else {
        p.source
    };
    let skipped: u64 = if step == 2 && next_frame(p.source, channels, rate) is Some {
        1
    } else {
        0
    };
    let after = if step == 0 {
        p.source
    } else {
        consumed(between, channels, rate)
    };
    let found = if step == 0 {
        None
    } else {
        next_frame(between, channels, rate)
    };
    let missing = step == 1 && found is None;
    let last = match found {
        Some(samples) => samples,
        None => p.last,
    };
    let frame = Frame {
        output_index: p.output_frames,
        before_index: p.source.index as usize,
        consumed: if found is Some {
            (skipped + 1) as u64
        } else {
            skipped
        },
        before_current: p.source.current_id(),
        after_current: after.current_id(),
        requires_epoch: p.source.current_id() == 0 || step > p.source.left() / channels,
        missing,
        cadence: None,
        position: position_of(after),
    };
    (
        Progress { source: after, last, output_frames: (p.output_frames + 1) as u64 },
        frame,
        if missing {
            Seq::new(channels as nat, |i: int| 0i32)
        } else {
            last
        },
    )
}

/// The output after so many steps.
pub open spec fn output_after(
    p: Progress,
    steps: Seq<usize>,
    count: int,
    channels: int,
    rate: int,
) -> Progress
    decreases count,
{
    if count <= 0 {
        p
    } else {
        output_step(
            output_after(p, steps, count - 1, channels, rate),
            steps[count - 1],
            channels,
            rate,
        ).0
    }
}

/// The frames that the source and the steps give, without their cadence.
pub open spec fn spans(
    p: Progress,
    steps: Seq<usize>,
    count: int,
    channels: int,
    rate: int,
    frames: Seq<Frame>,
    pcm: Seq<i32>,
) -> bool {
    &&& frames.len() == count
    &&& pcm.len() == count * channels
    &&& forall|i: int|
        0 <= i < count ==> (Frame { cadence: None, ..#[trigger] frames[i] }) == output_step(
            output_after(p, steps, i, channels, rate),
            steps[i],
            channels,
            rate,
        ).1
    &&& forall|i: int|
        0 <= i < count ==> #[trigger] chunk(pcm, i, channels) == output_step(
            output_after(p, steps, i, channels, rate),
            steps[i],
            channels,
            rate,
        ).2
}

/// A cadence step as a number of source frames.
pub open spec fn step_of(step: CadenceStep) -> usize {
    match step {
        CadenceStep::Repeat => 0,
        CadenceStep::Follow => 1,
        CadenceStep::Skip => 2,
    }
}

/// The counters after so many steps under a schedule.
pub open spec fn scheduled_after(
    schedule: CorrectionSchedule,
    measured: bool,
    counters: CadenceCounters,
    count: int,
) -> CadenceCounters
    decreases count,
{
    if count <= 0 {
        counters
    } else {
        cadence_step(
            schedule,
            measured,
            scheduled_after(schedule, measured, counters, count - 1),
        ).1
    }
}

/// The steps that a schedule gives.
pub open spec fn scheduled_steps(
    schedule: CorrectionSchedule,
    measured: bool,
    counters: CadenceCounters,
    count: int,
) -> Seq<usize> {
    Seq::new(
        count as nat,
        |i: int|
            step_of(
                cadence_step(
                    schedule,
                    measured,
                    scheduled_after(schedule, measured, counters, i),
                ).0,
            ),
    )
}

/// The preparation of spans from a view of the source.
pub struct Preparation {
    pub cursor: PlaybackQueue,
    pub output_frames: u64,
    pub last: Vec<i32>,
    pub channels: usize,
    pub rate: u32,
    pub window_frames: usize,
    pub schedule: CorrectionSchedule,
    pub counters: CadenceCounters,
    pub checkpoint: Option<Arc<PublishedCheckpoint>>,
}

/// Where output is apart from its source: how many frames were output, the last one of
/// them, and the cadence.
#[verifier::ext_equal]
pub struct Phase {
    pub output_frames: u64,
    pub last: Seq<i32>,
    pub schedule: CorrectionSchedule,
    pub counters: CadenceCounters,
}

/// The phase of an actual reading.
pub open spec fn phase_read(actual: Snapshot<'_>) -> Phase {
    Phase {
        output_frames: actual.output_frames,
        last: actual.last@,
        schedule: actual.cadence.schedule,
        counters: CadenceCounters {
            insert: actual.cadence.insert_counter,
            drop: actual.cadence.drop_counter,
        },
    }
}

/// A second preparation from the state of another, in every respect.
pub open spec fn forks(of: Preparation, fork: Preparation) -> bool {
    &&& fork.cursor.source() == of.cursor.source()
    &&& fork.cursor.next_source_id == of.cursor.next_source_id
    &&& fork.cursor.initialized == of.cursor.initialized
    &&& fork.phase() == of.phase()
    &&& fork.channels == of.channels
    &&& fork.rate == of.rate
    &&& fork.window_frames == of.window_frames
    &&& fork.checkpoint == of.checkpoint
}

impl Preparation {
    pub open spec fn phase(&self) -> Phase {
        Phase {
            output_frames: self.output_frames,
            last: self.last@,
            schedule: self.schedule,
            counters: self.counters,
        }
    }

    pub open spec fn well_formed(&self) -> bool {
        &&& self.cursor.well_formed()
        &&& self.channels > 0
        &&& self.rate > 0
        &&& self.window_frames > 0
        &&& self.last@.len() == self.channels
        &&& self.window_frames * self.channels <= usize::MAX
    }

    pub open spec fn progress(&self) -> Progress {
        Progress {
            source: self.cursor.source(),
            last: self.last@,
            output_frames: self.output_frames,
        }
    }

    /// Nothing to prepare from yet.
    pub fn empty(channels: usize, rate: u32, window_frames: usize) -> (preparation: Preparation)
        requires
            channels > 0,
            rate > 0,
            window_frames > 0,
            window_frames * channels <= usize::MAX,
        ensures
            preparation.well_formed(),
            preparation.channels == channels,
            preparation.rate == rate,
            preparation.window_frames == window_frames,
            preparation.cursor.source() == (Source {
                pending: Seq::empty(),
                current: None,
                index: 0,
                cursor_us: 0,
                cursor_remainder: 0,
                retired_through: 0,
            }),
            preparation.cursor.next_source_id == 1,
            preparation.cursor.pending_frames == 0,
            !preparation.cursor.initialized,
            preparation.output_frames == 0,
            preparation.last@ == Seq::new(channels as nat, |i: int| 0i32),
            preparation.checkpoint is None,
    {
        let last: Vec<i32> = vec![0; channels];
        assert(last@ =~= Seq::new(channels as nat, |i: int| 0i32));
        Preparation {
            cursor: PlaybackQueue::new(),
            output_frames: 0,
            last,
            channels,
            rate,
            window_frames,
            schedule: CorrectionSchedule::default(),
            counters: CadenceCounters { insert: 0, drop: 0 },
            checkpoint: None,
        }
    }

    /// Whether a source can be pushed: its format is the one prepared for, and its
    /// identity is new.
    pub open spec fn accepts(&self, id: u64, buffer: AudioBuffer) -> bool {
        &&& buffer.format.channels == self.channels
        &&& buffer.format.sample_rate == self.rate
        &&& self.cursor.next_source_id <= id < u64::MAX
        &&& self.cursor.pending_frames + buffer.frame_count() <= usize::MAX
    }

    /// Queue a source under an identity of the caller's. The first one places the
    /// cursor.
    pub fn push(&mut self, id: u64, buffer: AudioBuffer)
        requires
            old(self).well_formed(),
            old(self).accepts(id, buffer),
        ensures
            final(self).well_formed(),
            final(self).cursor.source() == old(self).cursor.source_with(
                QueuedAudioBuffer { source_id: id, buffer }@,
            ),
            final(self).cursor.next_source_id == id + 1,
            final(self).cursor.initialized,
            final(self).cursor.force_reanchor == (old(self).cursor.force_reanchor || !old(
                self,
            ).cursor.initialized),
            final(self).cursor.pending_frames <= old(self).cursor.pending_frames
                + buffer.frame_count(),
            *final(self) == (Preparation { cursor: final(self).cursor, ..*old(self) }),
    {
        let start: i64 = buffer.timestamp;
        let entry = QueuedAudioBuffer { source_id: id, buffer };
        assert(entry@.frames() == buffer.frame_count());
        self.cursor.place(entry);
        let ghost placed = self.cursor;
        if !self.cursor.initialized {
            self.cursor.initialized = true;
            self.cursor.cursor_us = start;
            self.cursor.cursor_remainder = 0;
            self.cursor.force_reanchor = true;
        }
        proof {
            crate::audio::synced_player::queue::lemma_same_order(placed, self.cursor);
        }
    }

    /// Forget every source, and begin output anew.
    pub fn reset(&mut self)
        requires
            old(self).well_formed(),
        ensures
            final(self).well_formed(),
            final(self).cursor.emptied(old(self).cursor),
            final(self).cursor.source().order().len() == 0,
            final(self).cursor.next_source_id == old(self).cursor.next_source_id,
            final(self).output_frames == 0,
            final(self).last@ == Seq::new(old(self).channels as nat, |i: int| 0i32),
            final(self).schedule == crate::audio::sync_correction::steady(),
            final(self).counters == (CadenceCounters { insert: 0, drop: 0 }),
            final(self).channels == old(self).channels,
            final(self).rate == old(self).rate,
            final(self).window_frames == old(self).window_frames,
            final(self).checkpoint == old(self).checkpoint,
    {
        self.cursor.clear();
        self.output_frames = 0;
        fill_silent(self.last.as_mut_slice());
        self.schedule = CorrectionSchedule::default();
        self.counters = CadenceCounters { insert: 0, drop: 0 };
    }

    pub fn attach_checkpoint(&mut self, checkpoint: Arc<PublishedCheckpoint>)
        ensures
            *final(self) == (Preparation { checkpoint: Some(checkpoint), ..*old(self) }),
    {
        self.checkpoint = Some(checkpoint);
    }

    /// Move the view to an actual position, without playing anything again.
    pub fn reconcile_position(&mut self, position: SourcePosition)
        requires
            old(self).well_formed(),
            holds(old(self).cursor.source(), position),
        ensures
            final(self).well_formed(),
            final(self).cursor.source() == reconciled(old(self).cursor.source(), position),
            *final(self) == (Preparation { cursor: final(self).cursor, ..*old(self) }),
            final(self).cursor.same_but_source(old(self).cursor),
    {
        self.cursor.reconcile_source(position);
    }

    /// Take over an actual reading: position, output, last frame and cadence. A
    /// reading that does not belong to this view is refused.
    pub fn apply_actual(&mut self, actual: &Snapshot<'_>) -> (applied: bool)
        requires
            old(self).well_formed(),
            old(self).cursor.source().order().len() <= usize::MAX,
            actual.last@.len() == old(self).channels,
        ensures
            final(self).well_formed(),
            applied == holds(old(self).cursor.source(), actual.position),
            !applied ==> *final(self) == *old(self),
            applied ==> {
                &&& final(self).cursor.source() == reconciled(
                    old(self).cursor.source(),
                    actual.position,
                )
                &&& final(self).phase() == phase_read(*actual)
            },
            final(self).channels == old(self).channels,
            final(self).rate == old(self).rate,
            final(self).window_frames == old(self).window_frames,
            final(self).checkpoint == old(self).checkpoint,
            final(self).cursor.same_but_source(old(self).cursor),
    {
        if !self.cursor.holds_position(actual.position) {
            return false;
        }
        self.reconcile_position(actual.position);
        self.output_frames = actual.output_frames;
        copy_samples(self.last.as_mut_slice(), actual.last.as_slice(), 0);
        assert(self.last@ =~= actual.last@);
        self.schedule = actual.cadence.schedule;
        self.counters = CadenceCounters {
            insert: actual.cadence.insert_counter,
            drop: actual.cadence.drop_counter,
        };
        true
    }

    /// A second preparation from the same state. The samples stay shared.
    pub fn fork_actual(&self) -> (fork: Preparation)
        requires
            self.well_formed(),
        ensures
            fork.well_formed(),
            forks(*self, fork),
            fork.progress() == self.progress(),
    {
        let mut cursor = PlaybackQueue::new();
        self.cursor.copy_source_into(&mut cursor);
        let mut last: Vec<i32> = vec![0; self.channels];
        copy_samples(last.as_mut_slice(), self.last.as_slice(), 0);
        assert(last@ =~= self.last@);
        Preparation {
            cursor,
            output_frames: self.output_frames,
            last,
            channels: self.channels,
            rate: self.rate,
            window_frames: self.window_frames,
            schedule: self.schedule,
            counters: self.counters,
            checkpoint: match &self.checkpoint {
                Some(checkpoint) => Some(Arc::clone(checkpoint)),
                None => None,
            },
        }
    }

    /// The source being played, or 0.
    pub fn current(&self) -> (current: u64)
        ensures
            current == self.cursor.source().current_id(),
    {
        self.cursor.source_position().current
    }
}

/// Append samples.
fn append_samples(pcm: &mut Vec<i32>, samples: &[i32])
    ensures
        final(pcm)@ == old(pcm)@ + samples@,
{
    let mut i: usize = 0;
    assert(samples@.take(0) =~= Seq::<i32>::empty());
    assert(pcm@ + samples@.take(0) =~= pcm@);
    while i < samples.len()
        invariant
            i <= samples@.len(),
            pcm@ == old(pcm)@ + samples@.take(i as int),
        decreases samples@.len() - i,
    {
        pcm.push(samples[i]);
        i += 1;
        assert(pcm@ =~= old(pcm)@ + samples@.take(i as int));
    }
    assert(samples@.take(i as int) =~= samples@);
}

/// Appending a frame leaves the earlier ones, and is itself the last.
proof fn lemma_appended(pcm: Seq<i32>, frame: Seq<i32>, count: int, channels: int)
    requires
        channels > 0,
        count >= 0,
        pcm.len() == count * channels,
        frame.len() == channels,
    ensures
        (pcm + frame).len() == (count + 1) * channels,
        chunk(pcm + frame, count, channels) == frame,
        forall|k: int|
            0 <= k < count ==> #[trigger] chunk(pcm + frame, k, channels) == chunk(
                pcm,
                k,
                channels,
            ),
{
    let all = pcm + frame;
    lemma_chunk_bounds(count, count + 1, channels);
    assert(chunk(all, count, channels) =~= frame);
    assert forall|k: int| 0 <= k < count implies #[trigger] chunk(all, k, channels) == chunk(
        pcm,
        k,
        channels,
    ) by {
        lemma_chunk_bounds(k, count, channels);
        assert(chunk(all, k, channels) =~= chunk(pcm, k, channels));
    }
}

impl Preparation {
    /// Prepare one output frame.
    fn prepare_frame(&mut self, step: usize) -> (frame: Frame)
        requires
            old(self).well_formed(),
            step <= 2,
            old(self).output_frames < u64::MAX,
        ensures
            final(self).well_formed(),
            ({
                let outcome = output_step(
                    old(self).progress(),
                    step,
                    old(self).channels as int,
                    old(self).rate as int,
                );
                &&& final(self).progress() == outcome.0
                &&& frame == outcome.1
                &&& outcome.2 == if frame.missing {
                    Seq::new(old(self).channels as nat, |i: int| 0i32)
                } else {
                    final(self).last@
                }
            }),
            final(self).same_setup(*old(self)),
    {
        let ghost p = self.progress();
        let ghost c = self.channels as int;
        let ghost rate = self.rate as int;
        let ghost first = self.cursor;
        let before: SourcePosition = self.cursor.source_position();
        let remaining: usize = self.cursor.left_samples() / self.channels;
        let mut consumed_frames: u64 = 0;
        let mut missing: bool = false;
        if step == 2 {
            if self.cursor.consume_next_frame(self.channels, self.rate, None) {
                consumed_frames = 1;
            }
            proof {
                let count = lemma_consumed_follows(first.source(), c, rate);
                lemma_follows_well_formed(first, self.cursor, count);
            }
        }
        let ghost between = self.cursor;
        if step != 0 {
            if self.cursor.consume_next_frame(
                self.channels,
                self.rate,
                Some(self.last.as_mut_slice()),
            ) {
                consumed_frames = consumed_frames + 1;
            } else if step == 1 {
                missing = true;
            }
            proof {
                let count = lemma_consumed_follows(between.source(), c, rate);
                lemma_follows_well_formed(between, self.cursor, count);
            }
        }
        let position: SourcePosition = self.cursor.source_position();
        let frame = Frame {
            output_index: self.output_frames,
            before_index: before.index,
            consumed: consumed_frames,
            before_current: before.current,
            after_current: position.current,
            requires_epoch: before.current == 0 || step > remaining,
            missing,
            cadence: None,
            position,
        };
        self.output_frames = self.output_frames + 1;
        frame
    }

    /// Everything but the progress stays.
    pub open spec fn same_setup(&self, before: Preparation) -> bool {
        &&& self.channels == before.channels
        &&& self.rate == before.rate
        &&& self.window_frames == before.window_frames
        &&& self.schedule == before.schedule
        &&& self.counters == before.counters
        &&& self.checkpoint == before.checkpoint
        &&& self.cursor.same_but_source(before.cursor)
    }

    /// Prepare a span of output frames, one for each step, and no more than a
    /// window holds.
    pub fn prepare(&mut self, epoch: u64, steps: &[usize]) -> (span: Span)
        requires
            old(self).well_formed(),
            forall|i: int| 0 <= i < steps@.len() ==> #[trigger] steps@[i] <= 2,
            old(self).output_frames + old(self).window_frames <= u64::MAX,
        ensures
            final(self).well_formed(),
            final(self).same_setup(*old(self)),
            span.epoch == epoch,
            span.channels == old(self).channels,
            span.checkpoint == old(self).checkpoint,
            ({
                let count = if steps@.len() < old(self).window_frames {
                    steps@.len() as int
                } else {
                    old(self).window_frames as int
                };
                &&& spans(
                    old(self).progress(),
                    steps@,
                    count,
                    old(self).channels as int,
                    old(self).rate as int,
                    span.frames@,
                    span.pcm@,
                )
                &&& final(self).progress() == output_after(
                    old(self).progress(),
                    steps@,
                    count,
                    old(self).channels as int,
                    old(self).rate as int,
                )
            }),
            forall|i: int|
                0 <= i < span.frames@.len() ==> (#[trigger] span.frames@[i]).cadence is None,
    {
        let ghost p = self.progress();
        let ghost c = self.channels as int;
        let ghost rate = self.rate as int;
        let given: usize = steps.len();
        let count: usize = if given < self.window_frames {
            given
        } else {
            self.window_frames
        };
        let silence: Vec<i32> = vec![0; self.channels];
        let mut frames: Vec<Frame> = Vec::new();
        let mut pcm: Vec<i32> = Vec::new();
        let mut i: usize = 0;
        while i < count
            invariant
                self.well_formed(),
                self.same_setup(*old(self)),
                c == self.channels,
                rate == self.rate,
                p == old(self).progress(),
                i <= count,
                count <= steps@.len(),
                count <= self.window_frames,
                old(self).output_frames + old(self).window_frames <= u64::MAX,
                self.output_frames == old(self).output_frames + i,
                forall|k: int| 0 <= k < steps@.len() ==> #[trigger] steps@[k] <= 2,
                silence@ == Seq::new(c as nat, |k: int| 0i32),
                self.progress() == output_after(p, steps@, i as int, c, rate),
                spans(p, steps@, i as int, c, rate, frames@, pcm@),
                forall|k: int| 0 <= k < i ==> (#[trigger] frames@[k]).cadence is None,
            decreases count - i,
        {
            let ghost done = pcm@;
            let ghost done_frames = frames@;
            let frame: Frame = self.prepare_frame(steps[i]);
            let ghost samples = output_step(
                output_after(p, steps@, i as int, c, rate),
                steps@[i as int],
                c,
                rate,
            ).2;
            if frame.missing {
                append_samples(&mut pcm, silence.as_slice());
            } else {
                append_samples(&mut pcm, self.last.as_slice());
            }
            frames.push(frame);
            proof {
                lemma_appended(done, samples, i as int, c);
                assert(pcm@ == done + samples);
                assert forall|k: int| 0 <= k < i + 1 implies (Frame {
                    cadence: None,
                    ..#[trigger] frames@[k]
                }) == output_step(
                    output_after(p, steps@, k, c, rate),
                    steps@[k],
                    c,
                    rate,
                ).1 by {
                    if k < i {
                        assert(frames@[k] == done_frames[k]);
                    }
                }
                assert forall|k: int| 0 <= k < i + 1 implies #[trigger] chunk(pcm@, k, c)
                    == output_step(
                    output_after(p, steps@, k, c, rate),
                    steps@[k],
                    c,
                    rate,
                ).2 by {
                    if k < i {
                        assert(chunk(pcm@, k, c) == chunk(done, k, c));
                    }
                }
            }
            i += 1;
        }
        Span {
            epoch,
            channels: self.channels,
            frames,
            pcm,
            lifetime: None,
            checkpoint: match &self.checkpoint {
                Some(checkpoint) => Some(Arc::clone(checkpoint)),
                None => None,
            },
        }
    }

    /// The counters that a schedule starts from.
    pub open spec fn counters_under(&self, schedule: CorrectionSchedule) -> CadenceCounters {
        if schedule == self.schedule {
            self.counters
        } else {
            CadenceCounters {
                insert: schedule.insert_every_n_frames,
                drop: schedule.drop_every_n_frames,
            }
        }
    }

    /// Prepare a span under a schedule. A schedule that is already followed keeps
    /// its counters. Each frame carries the cadence that it leaves behind.
    pub fn prepare_scheduled(
        &mut self,
        epoch: u64,
        requested_frames: usize,
        schedule: CorrectionSchedule,
        measured: bool,
    ) -> (span: Span)
        requires
            old(self).well_formed(),
            !schedule.reanchor,
            old(self).output_frames + old(self).window_frames <= u64::MAX,
        ensures
            final(self).well_formed(),
            final(self).schedule == schedule,
            final(self).checkpoint == old(self).checkpoint,
            span.epoch == epoch,
            span.channels == old(self).channels,
            span.checkpoint == old(self).checkpoint,
            ({
                let count = if requested_frames < old(self).window_frames {
                    requested_frames as int
                } else {
                    old(self).window_frames as int
                };
                let start = old(self).counters_under(schedule);
                let steps = scheduled_steps(schedule, measured, start, count);
                &&& spans(
                    old(self).progress(),
                    steps,
                    count,
                    old(self).channels as int,
                    old(self).rate as int,
                    span.frames@,
                    span.pcm@,
                )
                &&& final(self).progress() == output_after(
                    old(self).progress(),
                    steps,
                    count,
                    old(self).channels as int,
                    old(self).rate as int,
                )
                &&& final(self).counters == scheduled_after(schedule, measured, start, count)
                &&& forall|i: int|
                    0 <= i < count ==> (#[trigger] span.frames@[i]).cadence == Some(
                        cadence_of(
                            schedule,
                            scheduled_after(schedule, measured, start, i + 1),
                        ),
                    )
            }),
    {
        let ghost start = self.counters_under(schedule);
        if schedule != self.schedule {
            self.schedule = schedule;
            self.counters = CadenceCounters {
                insert: schedule.insert_every_n_frames,
                drop: schedule.drop_every_n_frames,
            };
        }
        let count: usize = if requested_frames < self.window_frames {
            requested_frames
        } else {
            self.window_frames
        };
        let ghost wanted = scheduled_steps(schedule, measured, start, count as int);
        let mut steps: Vec<usize> = Vec::new();
        let mut cadences: Vec<Cadence> = Vec::new();
        let mut counters = self.counters;
        let mut i: usize = 0;
        while i < count
            invariant
                i <= count,
                counters == scheduled_after(schedule, measured, start, i as int),
                wanted == scheduled_steps(schedule, measured, start, count as int),
                steps@.len() == i,
                cadences@.len() == i,
                forall|k: int| 0 <= k < i ==> #[trigger] steps@[k] == wanted[k],
                forall|k: int|
                    0 <= k < i ==> #[trigger] cadences@[k] == cadence_of(
                        schedule,
                        scheduled_after(schedule, measured, start, k + 1),
                    ),
            decreases count - i,
        {
            let (step, after): (CadenceStep, CadenceCounters) = next_cadence_step(
                schedule,
                measured,
                counters,
            );
            counters = after;
            steps.push(
                match step {
                    CadenceStep::Repeat => 0,
                    CadenceStep::Follow => 1,
                    CadenceStep::Skip => 2,
                },
            );
            cadences.push(
                Cadence {
                    schedule,
                    insert_counter: counters.insert,
                    drop_counter: counters.drop,
                },
            );
            i += 1;
        }
        assert(steps@ =~= wanted);
        self.counters = counters;
        let ghost before = *self;
        let mut span: Span = self.prepare(epoch, steps.as_slice());
        let ghost made = span;
        let ghost plain = span.frames@;
        let mut k: usize = 0;
        while k < span.frames.len()
            invariant
                k <= span.frames@.len(),
                span.frames@.len() == plain.len(),
                plain.len() == cadences@.len(),
                span.epoch == made.epoch,
                span.channels == made.channels,
                span.pcm == made.pcm,
                span.checkpoint == made.checkpoint,
                forall|j: int|
                    0 <= j < k ==> #[trigger] span.frames@[j] == (Frame {
                        cadence: Some(cadences@[j]),
                        ..plain[j]
                    }),
                forall|j: int| k <= j < plain.len() ==> #[trigger] span.frames@[j] == plain[j],
            decreases span.frames@.len() - k,
        {
            let mut frame = span.frames[k];
            frame.cadence = Some(cadences[k]);
            span.frames.set(k, frame);
            k += 1;
        }
        proof {
            assert forall|j: int| 0 <= j < count implies (Frame {
                cadence: None,
                ..#[trigger] span.frames@[j]
            }) == (Frame { cadence: None, ..plain[j] }) by {}
        }
        span
    }
}

/// A schedule with its counters, as a frame carries it.
pub open spec fn cadence_of(schedule: CorrectionSchedule, counters: CadenceCounters) -> Cadence {
    Cadence { schedule, insert_counter: counters.insert, drop_counter: counters.drop }
}

/// Whether sources can be prepared together: at least one, all of the first one's
/// format, under growing identities, and countable together.
pub open spec fn acceptable(sources: Seq<(u64, AudioBuffer)>, window_frames: usize) -> bool {
    &&& sources.len() > 0
    &&& window_frames > 0
    &&& sources[0].1.format.channels > 0
    &&& sources[0].1.format.sample_rate > 0
    &&& window_frames * sources[0].1.format.channels <= usize::MAX
    &&& forall|i: int|
        0 <= i < sources.len() ==> (#[trigger] sources[i]).1.format.channels
            == sources[0].1.format.channels && sources[i].1.format.sample_rate
            == sources[0].1.format.sample_rate && 0 < sources[i].0 < u64::MAX
    &&& forall|i: int, j: int|
        0 <= i < j < sources.len() ==> (#[trigger] sources[i]).0 < (#[trigger] sources[j]).0
    &&& frames_of(sources, sources.len() as int) <= usize::MAX
}

/// The frames of the first so many sources.
pub open spec fn frames_of(sources: Seq<(u64, AudioBuffer)>, count: int) -> int
    decreases count,
{
    if count <= 0 {
        0
    } else {
        frames_of(sources, count - 1) + sources[count - 1].1.frame_count()
    }
}

proof fn lemma_frames_grow(sources: Seq<(u64, AudioBuffer)>, from: int, to: int)
    requires
        0 <= from <= to <= sources.len(),
    ensures
        0 <= frames_of(sources, from) <= frames_of(sources, to),
    decreases to,
{
    if from < to {
        lemma_frames_grow(sources, from, to - 1);
    } else if to > 0 {
        lemma_frames_grow(sources, to - 1, to - 1);
    }
}

/// What is pending once the first so many sources have been pushed.
pub open spec fn pending_of(sources: Seq<(u64, AudioBuffer)>, count: int) -> Seq<
    crate::audio::synced_player::queue::Entry,
>
    decreases count,
{
    if count <= 0 {
        Seq::empty()
    } else {
        crate::audio::synced_player::queue::pushed(
            pending_of(sources, count - 1),
            QueuedAudioBuffer {
                source_id: sources[count - 1].0,
                buffer: sources[count - 1].1,
            }@,
        )
    }
}

impl Preparation {
    fn can_accept(&self, id: u64, buffer: &AudioBuffer) -> (can: bool)
        ensures
            can == self.accepts(id, *buffer),
    {
        let countable: bool = self.cursor.pending_frames.checked_add(buffer.frames()).is_some();
        buffer.format.channels as usize == self.channels && buffer.format.sample_rate == self.rate
            && self.cursor.next_source_id <= id && id < u64::MAX && countable
    }

    /// A preparation from sources, in windows of a moderate size.
    pub fn new(sources: Vec<(u64, AudioBuffer)>) -> (preparation: Option<Preparation>)
        ensures
            acceptable(sources@, 16) ==> preparation is Some,
            preparation matches Some(p) ==> p.well_formed() && p.window_frames == 16
                && p.prepares(sources@),
    {
        Preparation::with_window_frames(sources, 16)
    }

    /// Nothing but these sources, from the first one's time on.
    pub open spec fn prepares(&self, sources: Seq<(u64, AudioBuffer)>) -> bool {
        &&& sources.len() > 0
        &&& self.channels == sources[0].1.format.channels
        &&& self.rate == sources[0].1.format.sample_rate
        &&& self.output_frames == 0
        &&& self.last@ == Seq::new(self.channels as nat, |i: int| 0i32)
        &&& self.cursor.source() == (Source {
            pending: pending_of(sources, sources.len() as int),
            current: None,
            index: 0,
            cursor_us: sources[0].1.timestamp,
            cursor_remainder: 0,
            retired_through: 0,
        })
    }

    /// A preparation from sources. `None` where they cannot be prepared together.
    pub fn with_window_frames(sources: Vec<(u64, AudioBuffer)>, window_frames: usize) -> (preparation:
        Option<Preparation>)
        ensures
            acceptable(sources@, window_frames) ==> preparation is Some,
            preparation matches Some(p) ==> p.well_formed() && p.window_frames == window_frames
                && p.prepares(sources@),
    {
        if sources.len() == 0 || window_frames == 0 {
            return None;
        }
        let channels: usize = sources[0].1.format.channels as usize;
        let rate: u32 = sources[0].1.format.sample_rate;
        if channels == 0 || rate == 0 || window_frames.checked_mul(channels).is_none() {
            return None;
        }
        let mut preparation = Preparation::empty(channels, rate, window_frames);
        let ghost silent = preparation.last@;
        let mut i: usize = 0;
        while i < sources.len()
            invariant
                i <= sources@.len(),
                sources@.len() > 0,
                preparation.well_formed(),
                preparation.channels == channels,
                preparation.rate == rate,
                preparation.window_frames == window_frames,
                channels == sources@[0].1.format.channels,
                rate == sources@[0].1.format.sample_rate,
                preparation.output_frames == 0,
                preparation.last@ == silent,
                silent == Seq::new(channels as nat, |k: int| 0i32),
                preparation.cursor.initialized == (i > 0),
                preparation.cursor.next_source_id == if i == 0 {
                    1
                } else {
                    sources@[i - 1].0 + 1
                },
                preparation.cursor.source() == (Source {
                    pending: pending_of(sources@, i as int),
                    current: None,
                    index: 0,
                    cursor_us: if i == 0 {
                        0
                    } else {
                        sources@[0].1.timestamp
                    },
                    cursor_remainder: 0,
                    retired_through: 0,
                }),
                preparation.cursor.pending_frames <= frames_of(sources@, i as int),
            decreases sources@.len() - i,
        {
            let id: u64 = sources[i].0;
            let buffer = sources[i].1.share();
            proof {
                lemma_frames_grow(sources@, i + 1, sources@.len() as int);
                if i > 0 && acceptable(sources@, window_frames) {
                    assert(sources@[i - 1].0 < sources@[i as int].0);
                }
            }
            if !preparation.can_accept(id, &buffer) {
                return None;
            }
            let ghost before = preparation;
            assert(QueuedAudioBuffer { source_id: id, buffer }@ == QueuedAudioBuffer {
                source_id: id,
                buffer: sources@[i as int].1,
            }@);
            preparation.push(id, buffer);
            i += 1;
        }
        Some(preparation)
    }
}

/// A span being read. It is stopped once a frame does not continue, or none is
/// left.
#[verifier::ext_equal]
pub struct SpanReading {
    pub offset: int,
    pub current: u64,
    pub output_index: Option<u64>,
    pub source_index: usize,
    pub consumed: u64,
    pub visited: int,
    pub missing: int,
    pub invalidated: bool,
    pub stopped: bool,
    pub last_frame: Option<int>,
    pub cadence: Option<Cadence>,
    pub position: Option<SourcePosition>,
}

/// The offset past frames that have been output already.
pub open spec fn past_duplicates(
    frames: Seq<Frame>,
    offset: int,
    output_index: Option<u64>,
) -> int {
    match output_index {
        Some(actual) => if 0 <= offset < frames.len() && actual > frames[offset].output_index {
            if actual - frames[offset].output_index < frames.len() - offset {
                offset + (actual - frames[offset].output_index)
            } else {
                frames.len() as int
            }
        } else {
            offset
        },
        None => offset,
    }
}

/// Whether a frame continues the output: its number is the next one, it starts in
/// the source and at the place where the device is, it belongs to this version if
/// it begins a source, and its samples are there.
pub open spec fn frame_follows(span: Span, frame: Frame, r: SpanReading, epoch: u64) -> bool {
    &&& r.output_index matches Some(actual) ==> frame.output_index == actual && (r.current == 0
        || r.source_index == frame.before_index)
    &&& r.current == frame.before_current
    &&& frame.requires_epoch ==> epoch == span.epoch
    &&& r.offset * span.channels + span.channels <= span.pcm@.len()
}

/// The nearest count that can be held.
pub open spec fn held_sum(a: u64, b: u64) -> u64 {
    if a + b <= u64::MAX {
        (a + b) as u64
    } else {
        u64::MAX
    }
}

/// One frame read.
pub open spec fn read_one(span: Span, r: SpanReading, epoch: u64) -> (SpanReading, Seq<i32>) {
    let at = SpanReading {
        offset: past_duplicates(span.frames@, r.offset, r.output_index),
        ..r
    };
    if at.offset >= span.frames@.len() || at.output_index == Some(u64::MAX) {
        (SpanReading { stopped: true, ..at }, Seq::empty())
    } else {
        let frame = span.frames@[at.offset];
        if !frame_follows(span, frame, at, epoch) {
            (SpanReading { stopped: true, invalidated: true, ..at }, Seq::empty())
        } else {
            (
                SpanReading {
                    offset: at.offset + 1,
                    current: frame.after_current,
                    output_index: match at.output_index {
                        Some(actual) => Some((actual + 1) as u64),
                        None => None,
                    },
                    source_index: frame.position.index,
                    consumed: held_sum(at.consumed, frame.consumed),
                    visited: at.visited + 1,
                    missing: at.missing + if frame.missing {
                        1int
                    } else {
                        0
                    },
                    last_frame: if frame.missing {
                        at.last_frame
                    } else {
                        Some(at.offset)
                    },
                    cadence: frame.cadence,
                    position: Some(frame.position),
                    ..at
                },
                chunk(span.pcm@, at.offset, span.channels as int),
            )
        }
    }
}

/// So many frames read, or fewer if the reading stops.
pub open spec fn read_frames(span: Span, r: SpanReading, count: int, epoch: u64) -> (
    SpanReading,
    Seq<i32>,
)
    decreases count,
{
    if count <= 0 {
        (r, Seq::empty())
    } else {
        let (before, output) = read_frames(span, r, count - 1, epoch);
        if before.stopped {
            (before, output)
        } else {
            let (after, frame) = read_one(span, before, epoch);
            (after, output + frame)
        }
    }
}

/// What reading a span came to.
#[derive(Clone, Copy, Debug, PartialEq, Eq, Structural)]
pub struct SpanOutcome {
    pub offset: usize,
    pub current: u64,
    pub output_index: Option<u64>,
    pub source_index: usize,
    pub consumed: u64,
    pub visited: usize,
    pub missing: usize,
    pub invalidated: bool,
    pub stopped: bool,
    pub last_frame: Option<usize>,
    pub cadence: Option<Cadence>,
    pub position: Option<SourcePosition>,
}

impl SpanOutcome {
    pub open spec fn reading(self) -> SpanReading {
        SpanReading {
            offset: self.offset as int,
            current: self.current,
            output_index: self.output_index,
            source_index: self.source_index,
            consumed: self.consumed,
            visited: self.visited as int,
            missing: self.missing as int,
            invalidated: self.invalidated,
            stopped: self.stopped,
            last_frame: match self.last_frame {
                Some(frame) => Some(frame as int),
                None => None,
            },
            cadence: self.cadence,
            position: self.position,
        }
    }

    /// A reading of which nothing is done yet.
    pub open spec fn begun(
        offset: usize,
        current: u64,
        output_index: Option<u64>,
        source_index: usize,
    ) -> SpanOutcome {
        SpanOutcome {
            offset,
            current,
            output_index,
            source_index,
            consumed: 0,
            visited: 0,
            missing: 0,
            invalidated: false,
            stopped: false,
            last_frame: None,
            cadence: None,
            position: None,
        }
    }

    pub open spec fn is_begun(self) -> bool {
        self == SpanOutcome::begun(
            self.offset,
            self.current,
            self.output_index,
            self.source_index,
        )
    }

    /// A reading of which nothing is done yet.
    pub fn at(offset: usize, current: u64, output_index: Option<u64>, source_index: usize) -> (start:
        SpanOutcome)
        ensures
            start == SpanOutcome::begun(offset, current, output_index, source_index),
    {
        SpanOutcome {
            offset,
            current,
            output_index,
            source_index,
            consumed: 0,
            visited: 0,
            missing: 0,
            invalidated: false,
            stopped: false,
            last_frame: None,
            cadence: None,
            position: None,
        }
    }
}

fn skip_duplicates(span: &Span, offset: usize, output_index: Option<u64>) -> (next: usize)
    ensures
        next == past_duplicates(span.frames@, offset as int, output_index),
{
    let length: usize = span.frames.len();
    match output_index {
        Some(actual) => {
            if offset < length && actual > span.frames[offset].output_index {
                let behind: u64 = actual - span.frames[offset].output_index;
                if behind < (length - offset) as u64 {
                    offset + behind as usize
                } else {
                    length
                }
            } else {
                offset
            }
        },
        None => offset,
    }
}

fn continues_span(span: &Span, frame: Frame, r: SpanOutcome, epoch: u64) -> (follows: bool)
    ensures
        follows == frame_follows(*span, frame, r.reading(), epoch),
{
    let numbered: bool = match r.output_index {
        Some(actual) => frame.output_index == actual && (r.current == 0 || r.source_index
            == frame.before_index),
        None => true,
    };
    let available: usize = span.pcm.len();
    let there: bool = match r.offset.checked_mul(span.channels) {
        Some(start) => start <= available && span.channels <= available - start,
        None => false,
    };
    numbered && r.current == frame.before_current && (!frame.requires_epoch || epoch == span.epoch)
        && there
}

impl Span {
    /// Read one frame into `destination`, unless the reading stops.
    fn read_into(&self, r: SpanOutcome, epoch: u64, destination: &mut [i32]) -> (next: SpanOutcome)
        requires
            !r.stopped,
            r.visited < usize::MAX,
            r.missing <= r.visited,
            old(destination)@.len() == self.channels,
        ensures
            next.reading() == read_one(*self, r.reading(), epoch).0,
            final(destination)@.len() == self.channels,
            !next.stopped ==> final(destination)@ == read_one(*self, r.reading(), epoch).1,
            next.stopped ==> final(destination)@ == old(destination)@ && read_one(
                *self,
                r.reading(),
                epoch,
            ).1.len() == 0,
            next.missing <= next.visited,
            next.visited <= r.visited + 1,
    {
        let mut at = r;
        at.offset = skip_duplicates(self, r.offset, r.output_index);
        if at.offset >= self.frames.len() || at.output_index == Some(u64::MAX) {
            at.stopped = true;
            return at;
        }
        let frame: Frame = self.frames[at.offset];
        if !continues_span(self, frame, at, epoch) {
            at.stopped = true;
            at.invalidated = true;
            return at;
        }
        let available: usize = self.pcm.len();
        assert(at.offset * self.channels <= available);
        copy_samples(destination, self.pcm.as_slice(), at.offset * self.channels);
        if !frame.missing {
            at.last_frame = Some(at.offset);
        } else {
            at.missing = at.missing + 1;
        }
        at.offset = at.offset + 1;
        at.current = frame.after_current;
        at.output_index = match at.output_index {
            Some(actual) => Some(actual + 1),
            None => None,
        };
        at.source_index = frame.position.index;
        at.consumed = at.consumed.saturating_add(frame.consumed);
        at.visited = at.visited + 1;
        at.cadence = frame.cadence;
        at.position = Some(frame.position);
        at
    }

    /// Read a span into `output`; what it does not fill is silent.
    pub fn read(&self, start: SpanOutcome, epoch: u64, output: &mut [i32]) -> (outcome: SpanOutcome)
        requires
            self.channels > 0,
            old(output)@.len() as int % self.channels as int == 0,
            !start.stopped,
            start.visited == 0,
            start.missing == 0,
        ensures
            final(output)@.len() == old(output)@.len(),
            ({
                let frames = old(output)@.len() as int / self.channels as int;
                let (end, samples) = read_frames(*self, start.reading(), frames, epoch);
                &&& outcome.reading() == end
                &&& samples.len() == outcome.visited * self.channels
                &&& outcome.visited <= frames
                &&& final(output)@ == samples + Seq::new(
                    (old(output)@.len() - samples.len()) as nat,
                    |i: int| 0i32,
                )
            }),
    {
        fill_silent(output);
        let ghost c = self.channels as int;
        let total: usize = output.len();
        let frames: usize = total / self.channels;
        let ghost silent = output@;
        proof {
            lemma_whole(total as int, c);
        }
        let mut outcome = start;
        let mut i: usize = 0;
        let ghost mut samples: Seq<i32> = Seq::empty();
        assert(0 * c == 0);
        assert(output@ =~= samples + Seq::new((total - samples.len()) as nat, |k: int| 0i32));
        while i < frames && !outcome.stopped
            invariant
                c == self.channels,
                self.channels > 0,
                total == output@.len(),
                total == frames * c,
                i <= frames,
                outcome.visited <= i,
                !outcome.stopped ==> outcome.visited == i,
                outcome.missing <= outcome.visited,
                samples.len() == outcome.visited * c,
                samples.len() <= total,
                (outcome.reading(), samples) == read_frames(
                    *self,
                    start.reading(),
                    i as int,
                    epoch,
                ),
                output@ == samples + Seq::new((total - samples.len()) as nat, |k: int| 0i32),
            decreases frames - i,
        {
            let ghost before = output@;
            proof {
                lemma_chunk_bounds(i as int, frames as int, c);
            }
            let (earlier, rest) = output.split_at_mut(i * self.channels);
            let (destination, later) = rest.split_at_mut(self.channels);
            let ghost blank = destination@;
            outcome = self.read_into(outcome, epoch, destination);
            i += 1;
            proof {
                let more = read_one(
                    *self,
                    read_frames(*self, start.reading(), i - 1, epoch).0,
                    epoch,
                ).1;
                if outcome.stopped {
                    assert(more =~= Seq::<i32>::empty());
                    assert(samples + more =~= samples);
                    assert(output@ =~= before);
                } else {
                    assert(output@ =~= (samples + more) + Seq::new(
                        (total - (samples + more).len()) as nat,
                        |k: int| 0i32,
                    ));
                }
                samples = samples + more;
            }
        }
        proof {
            if i < frames {
                lemma_stopped(*self, start.reading(), i as int, frames as int, epoch);
            }
        }
        outcome
    }
}

/// A reading that has stopped stays where it is.
proof fn lemma_stopped(span: Span, r: SpanReading, from: int, to: int, epoch: u64)
    requires
        0 <= from <= to,
        read_frames(span, r, from, epoch).0.stopped,
    ensures
        read_frames(span, r, to, epoch) == read_frames(span, r, from, epoch),
    decreases to - from,
{
    if from < to {
        lemma_stopped(span, r, from, to - 1, epoch);
    }
}

proof fn lemma_whole(total: int, channels: int)
    requires
        channels > 0,
        total >= 0,
        total % channels == 0,
    ensures
        total == (total / channels) * channels,
        total / channels >= 0,
{
    assert(total == (total / channels) * channels && total / channels >= 0) by (nonlinear_arith)
        requires
            channels > 0,
            total >= 0,
            total % channels == 0,
    ;
}

/// What a callback got from a span.
#[derive(Clone, Copy, Debug, PartialEq, Eq, Structural)]
pub struct Read {
    pub visited: usize,
    pub missing: usize,
    pub invalidated: bool,
}

/// The frame that a reading output last, where its span has it, of as many channels as a
/// checkpoint keeps.
pub open spec fn last_read(
    span: Span,
    outcome: SpanOutcome,
    publication: PublishedCheckpoint,
) -> Option<Seq<i32>> {
    match outcome.last_frame {
        Some(frame) => if frame * span.channels + span.channels <= span.pcm@.len()
            && publication.channels() == span.channels {
            Some(chunk(span.pcm@, frame as int, span.channels as int))
        } else {
            None
        },
        None => None,
    }
}

/// What a reading came to was published, if it came to anything.
pub open spec fn outcome_published(span: Span, outcome: SpanOutcome) -> bool {
    match (span.checkpoint, outcome.cadence, outcome.position) {
        (Some(publication), Some(cadence), Some(position)) => publication.makes(
            CheckpointStep::Publish {
                cadence,
                position,
                visited: outcome.visited,
                last: last_read(span, outcome, *publication),
            },
        ),
        _ => true,
    }
}

/// What a reading took from the shared memory and left there. Its version and its current
/// source are those that the control gate showed, after a clear was answered; how much was
/// output and where in the source are those that the span's checkpoint gave. What was
/// consumed is added to the progress, and what was reached is published.
pub open spec fn span_exchanged(
    gate: ControlGate,
    progress: AtomicU64,
    span: Span,
    start: SpanOutcome,
    outcome: SpanOutcome,
    epoch: u64,
) -> bool {
    &&& exists|first: GateView, view: GateView|
        {
            &&& #[trigger] gate.shows(first)
            &&& #[trigger] gate.shows(view)
            &&& if first.says().revoked {
                gate.releases_current() && gate.shows_again(view)
            } else {
                view == first
            }
            &&& start.current == view.current
            &&& epoch == view.says().epoch
        }
    &&& span.checkpoint matches Some(publication) ==> {
        &&& start.output_index matches Some(index) && publication.reads_output(index)
        &&& publication.reads_index(start.source_index)
    }
    &&& added(progress, outcome.consumed)
    &&& outcome_published(span, outcome)
    &&& gate.makes_current(outcome.current)
}

/// Read a span within a callback: what the device has published and where it is
/// decides where the reading begins; what it came to is published.
pub fn render_active(
    span: &Span,
    offset: &mut usize,
    output: &mut [i32],
    callback: &CallbackGuard<'_>,
    progress: &AtomicU64,
) -> (read: Read)
    requires
        span.channels > 0,
        whole_output(old(output)@, *span),
    ensures
        final(output)@.len() == old(output)@.len(),
        read.missing <= read.visited,
        read.visited * span.channels <= old(output)@.len(),
        exists|start: SpanOutcome, outcome: SpanOutcome, epoch: u64|
            start.offset == *old(offset) && begins(*span, start) && #[trigger] reads(
                *span,
                start,
                outcome,
                epoch,
                final(output)@,
            )
                && *final(offset) == outcome.offset && read == (Read {
                visited: outcome.visited,
                missing: outcome.missing,
                invalidated: outcome.invalidated,
            }) && span_exchanged(*callback.of(), *progress, *span, start, outcome, epoch),
{
    let first = callback.view();
    let mut view = first;
    if first.current_revoked() {
        callback.finish_current();
        view = callback.view_again();
    }
    assert(callback.of().shows(first) && callback.of().shows(view));
    let (output_index, source_index): (Option<u64>, usize) = match &span.checkpoint {
        Some(publication) => (Some(publication.output_frames()), publication.source_index()),
        None => (None, 0),
    };
    let start = SpanOutcome::at(*offset, view.current(), output_index, source_index);
    let outcome = span.read(start, view.epoch(), output);
    *offset = outcome.offset;
    proof {
        lemma_missing_is_visited(*span, start.reading(), frames_in(output@, *span), view.says().epoch);
    }
    let before: u64 = progress.fetch_add(outcome.consumed, Ordering::Release);
    assert(added_to(*progress, outcome.consumed, before));
    publish_outcome(span, outcome);
    callback.publish_current(outcome.current);
    assert(span_exchanged(
        *callback.of(),
        *progress,
        *span,
        start,
        outcome,
        view.says().epoch,
    ));
    assert(reads(*span, start, outcome, view.says().epoch, output@));
    Read {
        visited: outcome.visited,
        missing: outcome.missing,
        invalidated: outcome.invalidated,
    }
}

/// Publish what a reading came to, if it came to anything.
fn publish_outcome(span: &Span, outcome: SpanOutcome)
    requires
        span.channels > 0,
    ensures
        outcome_published(*span, outcome),
{
    match (&span.checkpoint, outcome.cadence, outcome.position) {
        (Some(publication), Some(cadence), Some(position)) => {
            let mut last: Vec<i32> = Vec::new();
            let mut known: bool = false;
            match outcome.last_frame {
                Some(frame) => {
                    let available: usize = span.pcm.len();
                    match frame.checked_mul(span.channels) {
                        Some(from) => {
                            if from <= available && span.channels <= available - from
                                && publication.frame_channels() == span.channels {
                                last = vec![0; span.channels];
                                copy_samples(last.as_mut_slice(), span.pcm.as_slice(), from);
                                known = true;
                            }
                        },
                        None => {},
                    }
                },
                None => {},
            }
            if known && last.len() == publication.frame_channels() {
                publication.publish(cadence, position, outcome.visited, Some(last.as_slice()));
            } else {
                publication.publish(cadence, position, outcome.visited, None);
            }
        },
        _ => {},
    }
}

/// Whether output is made of whole frames of a span.
pub open spec fn whole_output(output: Seq<i32>, span: Span) -> bool {
    output.len() as int % span.channels as int == 0
}

/// The frames of an output.
pub open spec fn frames_in(output: Seq<i32>, span: Span) -> int {
    output.len() as int / span.channels as int
}

/// A reading of a span that begins. Where the span has a checkpoint, it goes on behind the
/// output that was counted there, so that nothing is heard twice.
pub open spec fn begins(span: Span, start: SpanOutcome) -> bool {
    &&& start.is_begun()
    &&& start.output_index is Some <==> span.checkpoint is Some
    &&& span.checkpoint is None ==> start.source_index == 0
}

/// A reading of a span, exactly.
pub open spec fn reads(
    span: Span,
    start: SpanOutcome,
    outcome: SpanOutcome,
    epoch: u64,
    output: Seq<i32>,
) -> bool {
    let (end, samples) = read_frames(span, start.reading(), frames_in(output, span), epoch);
    &&& outcome.reading() == end
    &&& samples.len() == outcome.visited * span.channels
    &&& output == samples + Seq::new((output.len() - samples.len()) as nat, |i: int| 0i32)
}

/// One span's turn in a callback: where its reading began, under which version, and
/// how many frames were asked of it.
pub struct SpanTurn {
    pub start: SpanOutcome,
    pub epoch: u64,
    pub asked: int,
}

/// What a turn comes to. A span of other channels is passed over.
pub open spec fn turn_read(span: Span, turn: SpanTurn, channels: int) -> (SpanReading, Seq<i32>) {
    read_frames(
        span,
        turn.start.reading(),
        if span.channels == channels {
            turn.asked
        } else {
            0
        },
        turn.epoch,
    )
}

/// What is heard of the spans in turn, and how many frames of it stand for source
/// that is missing.
pub open spec fn turns_heard(spans: Seq<Span>, turns: Seq<SpanTurn>, channels: int) -> (
    Seq<i32>,
    int,
)
    decreases turns.len(),
{
    if turns.len() == 0 {
        (Seq::empty(), 0)
    } else {
        let last = turns.len() - 1;
        let (before, missing) = turns_heard(spans, turns.drop_last(), channels);
        let (end, samples) = turn_read(spans[last], turns[last], channels);
        (before + samples, missing + end.missing)
    }
}

/// The frames that are read before a turn.
pub open spec fn read_before(spans: Seq<Span>, turns: Seq<SpanTurn>, number: int, channels: int) -> int
    decreases number,
{
    if number <= 0 {
        0
    } else {
        read_before(spans, turns, number - 1, channels) + turn_read(
            spans[number - 1],
            turns[number - 1],
            channels,
        ).0.visited
    }
}

/// A turn is taken while there is room, begins where the device had got to in its span,
/// and asks for all frames that are left.
pub open spec fn turn_taken(
    spans: Seq<Span>,
    at: int,
    turns: Seq<SpanTurn>,
    channels: int,
    total: int,
    number: int,
) -> bool {
    let read = read_before(spans, turns, number, channels);
    &&& read < total
    &&& turns[number].start.is_begun()
    &&& turns[number].start.offset == begun_at(at, number)
    &&& spans[number].channels == channels ==> begins(spans[number], turns[number].start)
        && turns[number].asked == total - read
}

/// Whether a span is given back after its turn: it has other channels, does not continue
/// the output, or is used up.
pub open spec fn span_over(span: Span, channels: int, invalidated: bool, offset: int) -> bool {
    span.channels != channels || invalidated || offset >= span.frames@.len()
}

/// Whether a span is given back once it was read.
pub fn span_ends(span: &Span, channels: usize, invalidated: bool, offset: usize) -> (over: bool)
    ensures
        over == span_over(*span, channels as int, invalidated, offset as int),
{
    span.channels != channels || invalidated || offset >= span.frames.len()
}

pub open spec fn turn_over(spans: Seq<Span>, turns: Seq<SpanTurn>, channels: int, number: int) -> bool {
    let end = turn_read(spans[number], turns[number], channels).0;
    span_over(spans[number], channels, end.invalidated, end.offset)
}

/// Turns as a device takes them: one span after the other, and on to the next only where
/// one is over.
pub open spec fn turns_follow(
    spans: Seq<Span>,
    at: int,
    turns: Seq<SpanTurn>,
    channels: int,
    total: int,
) -> bool {
    &&& turns.len() <= spans.len()
    &&& forall|i: int|
        0 <= i < turns.len() ==> #[trigger] turn_taken(spans, at, turns, channels, total, i)
    &&& forall|i: int| 0 <= i < turns.len() - 1 ==> #[trigger] turn_over(spans, turns, channels, i)
}

/// The spans that are over after all turns.
pub open spec fn turns_retired(spans: Seq<Span>, turns: Seq<SpanTurn>, channels: int) -> int {
    let count = turns.len() as int;
    if count > 0 && !turn_over(spans, turns, channels, count - 1) {
        count - 1
    } else {
        count
    }
}

/// Where the turns of a callback leave a lane: in the span that is not over, or at the next
/// one. Every span that is over is given back, but for one that may be held.
pub open spec fn turns_leave(
    entered: DeviceLane<Span>,
    after: DeviceLane<Span>,
    turns: Seq<SpanTurn>,
    channels: int,
) -> bool {
    let spans = entered.coming();
    let count = turns.len() as int;
    let retired = turns_retired(spans, turns, channels);
    &&& after.coming() == spans.skip(retired)
    &&& after.at() == if count == 0 {
        entered.at() as int
    } else if retired < count {
        turn_read(spans[retired], turns[retired], channels).0.offset
    } else {
        0
    }
    &&& entered.held() is None ==> retired == after.outgoing().sent() - entered.outgoing().sent()
        + if after.held() is Some {
        1int
    } else {
        0
    }
    &&& after.held() is Some && entered.held() is None ==> retired > 0 && after.held() == Some(
        spans[retired - 1],
    )
}

/// A callback of a device for spans, from the lane as it was entered: what is heard is what
/// was read of the spans in turn, and then silence. A turn is left out only where the output
/// is full, a span is not over, or one is held.
pub open spec fn turns_sound_from(
    entered: DeviceLane<Span>,
    budget: usize,
    after: DeviceLane<Span>,
    turns: Seq<SpanTurn>,
    channels: int,
    output: Seq<i32>,
    missing: int,
) -> bool {
    let spans = entered.coming();
    let count = turns.len() as int;
    let total = output.len() as int / channels;
    let read = read_before(spans, turns, count, channels);
    let (samples, lacking) = turns_heard(spans, turns, channels);
    &&& count <= budget
    &&& turns_follow(spans, entered.at() as int, turns, channels, total)
    &&& output == samples + Seq::new((output.len() - samples.len()) as nat, |i: int| 0i32)
    &&& samples.len() == read * channels
    &&& missing == lacking + total - read
    &&& count < budget ==> read == total || turns_retired(spans, turns, channels) < count
        || after.held() is Some
    &&& turns_leave(entered, after, turns, channels)
}

/// What a turn took from the shared memory and left there.
pub open spec fn turn_exchanged(
    gate: ControlGate,
    progress: AtomicU64,
    span: Span,
    turn: SpanTurn,
    channels: int,
) -> bool {
    span.channels == channels ==> exists|outcome: SpanOutcome| #[trigger]
        span_exchanged(gate, progress, span, turn.start, outcome, turn.epoch) && outcome.reading()
            == turn_read(span, turn, channels).0
}

pub open spec fn turns_exchanged(
    gate: ControlGate,
    progress: AtomicU64,
    spans: Seq<Span>,
    turns: Seq<SpanTurn>,
    channels: int,
) -> bool {
    forall|i: int|
        0 <= i < turns.len() ==> turn_exchanged(
            gate,
            progress,
            spans[i],
            #[trigger] turns[i],
            channels,
        )
}

/// A callback of a device for spans, exactly, from what it found of the control gate and of
/// the checkpoints.
pub open spec fn turns_sound(
    gate: ControlGate,
    progress: AtomicU64,
    before: DeviceLane<Span>,
    after: DeviceLane<Span>,
    channels: int,
    output: Seq<i32>,
    missing: int,
) -> bool {
    exists|entered: DeviceLane<Span>, budget: usize, turns: Seq<SpanTurn>|
        enters_lane(before, entered, budget) && #[trigger] turns_sound_from(
            entered,
            budget,
            after,
            turns,
            channels,
            output,
            missing,
        ) && turns_exchanged(gate, progress, entered.coming(), turns, channels)
}

/// What is read before a turn depends only on the turns before it.
proof fn lemma_read_before(
    spans: Seq<Span>,
    a: Seq<SpanTurn>,
    b: Seq<SpanTurn>,
    number: int,
    channels: int,
)
    requires
        0 <= number <= a.len(),
        number <= b.len(),
        forall|i: int| 0 <= i < number ==> a[i] == b[i],
    ensures
        read_before(spans, a, number, channels) == read_before(spans, b, number, channels),
    decreases number,
{
    if number > 0 {
        lemma_read_before(spans, a, b, number - 1, channels);
    }
}

/// One turn more follows.
proof fn lemma_turn_follows(
    spans: Seq<Span>,
    at: int,
    before: Seq<SpanTurn>,
    turn: SpanTurn,
    channels: int,
    total: int,
)
    requires
        turns_follow(spans, at, before, channels, total),
        before.len() < spans.len(),
        before.len() > 0 ==> turn_over(spans, before, channels, before.len() - 1),
        read_before(spans, before, before.len() as int, channels) < total,
        turn.start.is_begun(),
        turn.start.offset == begun_at(at, before.len() as int),
        spans[before.len() as int].channels == channels ==> begins(
            spans[before.len() as int],
            turn.start,
        ) && turn.asked == total - read_before(spans, before, before.len() as int, channels),
    ensures
        turns_follow(spans, at, before.push(turn), channels, total),
        read_before(spans, before.push(turn), before.len() as int + 1, channels) == read_before(
            spans,
            before,
            before.len() as int,
            channels,
        ) + turn_read(spans[before.len() as int], turn, channels).0.visited,
{
    let number = before.len() as int;
    let after = before.push(turn);
    assert forall|i: int| 0 <= i <= number implies #[trigger] read_before(
        spans,
        after,
        i,
        channels,
    ) == read_before(spans, before, i, channels) by {
        lemma_read_before(spans, after, before, i, channels);
    }
    assert(read_before(spans, after, number, channels) == read_before(
        spans,
        before,
        number,
        channels,
    ));
    assert(read_before(spans, after, number + 1, channels) == read_before(
        spans,
        after,
        number,
        channels,
    ) + turn_read(spans[number], after[number], channels).0.visited);
    assert forall|i: int| 0 <= i < number + 1 implies #[trigger] turn_taken(
        spans,
        at,
        after,
        channels,
        total,
        i,
    ) by {
        if i < number {
            assert(turn_taken(spans, at, before, channels, total, i));
            assert(after[i] == before[i]);
        }
    }
    assert forall|i: int| 0 <= i < number implies #[trigger] turn_over(spans, after, channels, i)
        by {
        assert(after[i] == before[i]);
        assert(turn_over(spans, before, channels, i));
    }
}

/// A reading does not go back.
proof fn lemma_reading_goes_on(span: Span, r: SpanReading, count: int, epoch: u64)
    ensures
        read_frames(span, r, count, epoch).0.offset >= r.offset,
    decreases count,
{
    if count > 0 {
        lemma_reading_goes_on(span, r, count - 1, epoch);
    }
}

/// One span more.
proof fn lemma_turns_on(spans: Seq<Span>, turns: Seq<SpanTurn>, turn: SpanTurn, channels: int)
    ensures
        turns_heard(spans, turns.push(turn), channels) == ({
            let (before, missing) = turns_heard(spans, turns, channels);
            let (end, samples) = turn_read(spans[turns.len() as int], turn, channels);
            (before + samples, missing + end.missing)
        }),
{
    assert(turns.push(turn).drop_last() =~= turns);
}

proof fn lemma_missing_is_visited(span: Span, r: SpanReading, count: int, epoch: u64)
    requires
        r.missing <= r.visited,
    ensures
        read_frames(span, r, count, epoch).0.missing <= read_frames(
            span,
            r,
            count,
            epoch,
        ).0.visited,
    decreases count,
{
    if count > 0 {
        lemma_missing_is_visited(span, r, count - 1, epoch);
    }
}

/// The device for spans.
pub struct SpanDevice {
    pub lane: DeviceLane<Span>,
    pub gate: Arc<ControlGate>,
    pub progress: Arc<AtomicU64>,
}

impl SpanDevice {
    pub fn new(lane: DeviceLane<Span>) -> (device: SpanDevice)
        ensures
            device.lane == lane,
            device.gate.begins_with(0),
            made_u64(*device.progress, 0),
    {
        SpanDevice {
            lane,
            gate: Arc::new(ControlGate::default()),
            progress: Arc::new(AtomicU64::new(0)),
        }
    }

    /// Render as a callback of its own. `None` where another callback is active.
    pub fn render_span(&mut self, output: &mut [i32], channels: usize) -> (missing: Option<usize>)
        requires
            channels > 0,
            old(output)@.len() as int % channels as int == 0,
            old(self).lane.incoming().placed(),
        ensures
            final(self).lane.incoming().placed(),
            final(output)@.len() == old(output)@.len(),
            exists|previous: u64| #[trigger]
                old(self).gate.is_entered(previous) && missing is None == control(previous).active,
            missing is None ==> *final(self) == *old(self) && final(output)@ == old(output)@,
            missing matches Some(m) ==> turns_sound(
                *old(self).gate,
                *old(self).progress,
                old(self).lane,
                final(self).lane,
                channels as int,
                final(output)@,
                m as int,
            ),
    {
        let gate = Arc::clone(&self.gate);
        let missing = match gate.begin_callback() {
            Some(callback) => Some(self.render_span_active(&callback, output, channels)),
            None => None,
        };
        missing
    }

    /// Render within a callback, for the spans that have arrived on entry. The
    /// answer is how many frames are missing. A span of other channels is given
    /// back unplayed.
    pub fn render_span_active(
        &mut self,
        callback: &CallbackGuard<'_>,
        output: &mut [i32],
        channels: usize,
    ) -> (missing: usize)
        requires
            channels > 0,
            old(output)@.len() as int % channels as int == 0,
            old(self).lane.incoming().placed(),
        ensures
            final(self).lane.incoming().placed(),
            final(self).lane.incoming().stream() == old(self).lane.incoming().stream(),
            final(output)@.len() == old(output)@.len(),
            missing <= old(output)@.len() as int / channels as int,
            final(self).gate == old(self).gate,
            final(self).progress == old(self).progress,
            turns_sound(
                *callback.of(),
                *old(self).progress,
                old(self).lane,
                final(self).lane,
                channels as int,
                final(output)@,
                missing as int,
            ),
    {
        fill_silent(output);
        let length: usize = output.len();
        let total: usize = length / channels;
        let ghost c = channels as int;
        proof {
            lemma_whole(length as int, c);
        }
        let visible: usize = self.lane.enter();
        let ghost entered = self.lane;
        let ghost spans = self.lane.coming();
        let ghost at = self.lane.at() as int;
        let ghost mut turns: Seq<SpanTurn> = Seq::empty();
        let mut written: usize = 0;
        let mut missing: usize = 0;
        let mut turn: usize = 0;
        proof {
            assert(output@.take(0) =~= turns_heard(spans, turns, c).0);
            assert(spans.skip(0) =~= spans);
        }
        while turn < visible && written < total
            invariant_except_break
                turn > 0 ==> turn_over(spans, turns, c, turn - 1),
                self.lane.held() is None || visible == 0,
                self.lane.arrived() >= visible - turn,
                self.lane.coming() == spans.skip(turn as int),
                self.lane.at() == begun_at(at, turn as int),
                self.lane.outgoing().sent() == entered.outgoing().sent() + turn,
                turn == 0 ==> self.lane == entered,
            invariant
                spans == entered.coming(),
                at == entered.at(),
                enters_lane(old(self).lane, entered, visible),
                self.gate == old(self).gate,
                self.progress == old(self).progress,
                turns_exchanged(*callback.of(), *self.progress, spans, turns, c),
                entered.incoming().placed(),
                turns.len() == turn,
                turn <= visible,
                c == channels,
                channels > 0,
                length == output@.len(),
                length == old(output)@.len(),
                length == total * c,
                turns_follow(spans, at, turns, c, total as int),
                written == read_before(spans, turns, turn as int, c),
                0 <= written * c <= length,
                output@.take(written * c) == turns_heard(spans, turns, c).0,
                missing == turns_heard(spans, turns, c).1,
                forall|i: int| written * c <= i < length ==> #[trigger] output@[i] == 0,
                written <= total,
                missing <= written,
                self.lane.incoming().placed(),
                self.lane.incoming().stream() == old(self).lane.incoming().stream(),
            ensures
                turn < visible ==> written == total || turns_retired(spans, turns, c) < turn
                    || self.lane.held() is Some,
                turns_leave(entered, self.lane, turns, c),
            decreases visible - turn,
        {
            let mut offset: usize = self.lane.offset();
            let from: usize = offset;
            let ghost number = turn as int;
            assert(self.lane.coming().len() > 0);
            let span = match self.lane.peek() {
                Some(span) => span,
                None => {
                    assert(false);
                    return missing + (total - written);
                },
            };
            assert(*span == spans[number]);
            let mut invalidated: bool = false;
            let ghost heard_before = turns_heard(spans, turns, c).0;
            let ghost mut taken = SpanTurn {
                start: SpanOutcome::begun(offset, 0, None, 0),
                epoch: 0,
                asked: 0,
            };
            let ghost before = turns;
            if span.channels == channels {
                proof {
                    lemma_rest_is_whole(written as int, total as int, c);
                }
                let (earlier, rest) = output.split_at_mut(written * channels);
                let read = render_active(span, &mut offset, rest, callback, &self.progress);
                proof {
                    lemma_visited_fits(read.visited as int, (total - written) as int, c);
                    let (start, outcome, epoch) = choose|
                        start: SpanOutcome,
                        outcome: SpanOutcome,
                        epoch: u64,
                    |
                        start.offset == from && begins(*span, start) && #[trigger] reads(
                            *span,
                            start,
                            outcome,
                            epoch,
                            rest@,
                        ) && offset == outcome.offset && read == (Read {
                            visited: outcome.visited,
                            missing: outcome.missing,
                            invalidated: outcome.invalidated,
                        }) && span_exchanged(
                            *callback.of(),
                            *self.progress,
                            *span,
                            start,
                            outcome,
                            epoch,
                        );
                    lemma_frames_of(rest@.len() as int, (total - written) as int, c);
                    taken = SpanTurn { start, epoch, asked: frames_in(rest@, *span) };
                    assert((written + read.visited) * c == written * c + read.visited * c)
                        by (nonlinear_arith);
                    lemma_reading_goes_on(*span, start.reading(), taken.asked, epoch);
                    assert(outcome.reading() == turn_read(*span, taken, c).0);
                    assert(turn_exchanged(*callback.of(), *self.progress, *span, taken, c));
                }
                invalidated = read.invalidated;
                written = written + read.visited;
                missing = missing + read.missing;
            }
            let over: bool = span_ends(span, channels, invalidated, offset);
            proof {
                lemma_turns_on(spans, before, taken, c);
                lemma_turn_follows(spans, at, before, taken, c, total as int);
                let samples = turn_read(spans[number], taken, c).1;
                assert(written * c == heard_before.len() + samples.len());
                assert(output@.take(written * c) =~= heard_before + samples);
                turns = turns.push(taken);
                assert forall|i: int| 0 <= i < turns.len() implies turn_exchanged(
                    *callback.of(),
                    *self.progress,
                    spans[i],
                    #[trigger] turns[i],
                    c,
                ) by {
                    if i < number {
                        assert(turns[i] == before[i]);
                    }
                }
                assert(turn_over(spans, turns, c, number) == over);
            }
            turn += 1;
            if !over {
                self.lane.advance(offset - from);
                break;
            }
            if !self.lane.retire() {
                assert(spans.skip(number).skip(1) =~= spans.skip(turn as int));
                break;
            }
            assert(spans.skip(number).skip(1) =~= spans.skip(turn as int));
        }
        proof {
            let (samples, lacking) = turns_heard(spans, turns, c);
            assert(output@ =~= samples + Seq::new(
                (output@.len() - samples.len()) as nat,
                |i: int| 0i32,
            ));
            lemma_frames_of(length as int, total as int, c);
            assert(turns_sound_from(
                entered,
                visible,
                self.lane,
                turns,
                c,
                output@,
                missing + (total - written),
            ));
        }
        missing + (total - written)
    }
}

proof fn lemma_frames_of(samples: int, frames: int, channels: int)
    requires
        channels > 0,
        samples == frames * channels,
    ensures
        samples / channels == frames,
{
    assert(samples / channels == frames) by (nonlinear_arith)
        requires
            channels > 0,
            samples == frames * channels,
    ;
}

proof fn lemma_rest_is_whole(written: int, total: int, channels: int)
    requires
        0 <= written <= total,
        channels > 0,
    ensures
        0 <= written * channels <= total * channels,
        (total * channels - written * channels) % channels == 0,
        total * channels - written * channels == (total - written) * channels,
{
    assert(0 <= written * channels <= total * channels && total * channels - written * channels
        == (total - written) * channels) by (nonlinear_arith)
        requires
            0 <= written <= total,
            channels > 0,
    ;
    assert(((total - written) * channels) % channels == 0) by (nonlinear_arith)
        requires
            channels > 0,
    ;
}

proof fn lemma_visited_fits(visited: int, left: int, channels: int)
    requires
        visited * channels <= left * channels,
        channels > 0,
    ensures
        visited <= left,
{
    assert(visited <= left) by (nonlinear_arith)
        requires
            visited * channels <= left * channels,
            channels > 0,
    ;
}

/// A span plays what was prepared: where the device stands at one of its frames,
/// in its own version, reading gives exactly the samples that the source and the
/// step gave, and leads to where the preparation stood after it.
pub proof fn a_span_plays_what_was_prepared(
    p: Progress,
    steps: Seq<usize>,
    count: int,
    rate: int,
    span: Span,
    r: SpanReading,
    epoch: u64,
)
    requires
        span.channels > 0,
        spans(p, steps, count, span.channels as int, rate, span.frames@, span.pcm@),
        0 <= r.offset < count,
        epoch == span.epoch,
        r.current == output_after(
            p,
            steps,
            r.offset,
            span.channels as int,
            rate,
        ).source.current_id(),
        r.output_index matches Some(actual) ==> actual < u64::MAX && actual == output_after(
            p,
            steps,
            r.offset,
            span.channels as int,
            rate,
        ).output_frames && r.source_index == output_after(
            p,
            steps,
            r.offset,
            span.channels as int,
            rate,
        ).source.index as usize,
    ensures
        ({
            let before = output_after(p, steps, r.offset, span.channels as int, rate);
            let after = output_after(p, steps, r.offset + 1, span.channels as int, rate);
            let (next, samples) = read_one(span, r, epoch);
            &&& samples == output_step(before, steps[r.offset], span.channels as int, rate).2
            &&& next.offset == r.offset + 1
            &&& next.current == after.source.current_id()
            &&& next.position == Some(position_of(after.source))
            &&& next.visited == r.visited + 1
            &&& next.stopped == r.stopped
        }),
{
    let c = span.channels as int;
    let k = r.offset;
    lemma_chunk_bounds(k, count, c);
    let frame = span.frames@[k];
    assert((Frame { cadence: None, ..frame }) == output_step(
        output_after(p, steps, k, c, rate),
        steps[k],
        c,
        rate,
    ).1);
    assert(chunk(span.pcm@, k, c) == output_step(
        output_after(p, steps, k, c, rate),
        steps[k],
        c,
        rate,
    ).2);
}

} // verus!
