use sendspin::audio::sync_correction::CorrectionSchedule;
use sendspin::audio::synced_player::handoff_probe::admission::SourceLedger;
use sendspin::audio::synced_player::handoff_probe::bounded::{pipe_for, CreditSide};
use sendspin::audio::synced_player::handoff_probe::start::{GateStartAuthority, StartAuthority};
use sendspin::audio::synced_player::handoff_probe::timeline::checkpoint::PublishedCheckpoint;
use sendspin::audio::synced_player::handoff_probe::timeline::feedback::{
    decide, Feedback, ModelHealth, ModelReading, ModelValidity, Observation, Observed, PlanMailbox,
    ValidatedFeedback, ValidatedObservation, ValidatedPlanMailbox, ValidatedPlanReader,
};
use sendspin::audio::synced_player::handoff_probe::timeline::tape::{
    measured_from, plan_to_follow, prepare_tape, TapeDevice, TapePreparation,
};
use sendspin::audio::synced_player::handoff_probe::timeline::Preparation;
use sendspin::audio::synced_player::ingress::ControlGate;
use sendspin::audio::synced_player::preparation::Window;
use sendspin::audio::synced_player::ring::channel;
use sendspin::audio::{
    AudioBuffer, AudioFormat, Codec, EnqueueOutcome, RendererOperationOutcome,
    ScheduledArmOutcome,
};
use std::sync::atomic::Ordering;
use std::sync::Arc;
use std::sync::OnceLock;
use std::time::{Duration, Instant};

/// The moment that the test's clocks count from, far enough from every edge.
static ORIGIN: OnceLock<Instant> = OnceLock::new();

fn at(micros: i64) -> Instant {
    let base = *ORIGIN.get_or_init(Instant::now) + Duration::from_secs(1_000_000);
    let distance = Duration::from_micros(micros.unsigned_abs());
    if micros >= 0 {
        base + distance
    } else {
        base - distance
    }
}

fn source_pcm(samples: &[i32]) -> AudioBuffer {
    AudioBuffer {
        timestamp: 0,
        samples: Arc::from(samples),
        format: AudioFormat {
            codec: Codec::Pcm,
            sample_rate: 1_000,
            channels: 1,
            bit_depth: 24,
            codec_header: None,
        },
    }
}

fn drop_every(frames: u32) -> CorrectionSchedule {
    CorrectionSchedule {
        drop_every_n_frames: frames,
        ..CorrectionSchedule::default()
    }
}

fn insert_every(frames: u32) -> CorrectionSchedule {
    CorrectionSchedule {
        insert_every_n_frames: frames,
        ..CorrectionSchedule::default()
    }
}

fn reanchor() -> CorrectionSchedule {
    CorrectionSchedule {
        reanchor: true,
        ..CorrectionSchedule::default()
    }
}

/// The plan for an error of so many microseconds either way.
fn plan(error: i64) -> CorrectionSchedule {
    if error > 0 {
        drop_every(500)
    } else {
        insert_every(500)
    }
}

fn mono(limit: usize) -> (CreditSide<Window>, TapeDevice) {
    let (producer, pipe) = pipe_for::<Window>(limit).unwrap();
    let device = TapeDevice::new(pipe, Arc::new(PublishedCheckpoint::new(1)), 1);
    (producer, device)
}

fn ledger_for(device: &TapeDevice) -> SourceLedger {
    SourceLedger::with_checkpoint(
        Arc::clone(&device.progress),
        Arc::clone(&device.checkpoint),
    )
    .unwrap()
}

fn enqueue_at(ledger: &mut SourceLedger, gate: &ControlGate, timestamp: i64, samples: &[i32]) {
    let mut source = source_pcm(samples);
    source.timestamp = timestamp;
    assert!(matches!(
        ledger.try_enqueue(source, gate, || {}),
        Ok(EnqueueOutcome::Accepted { .. })
    ));
}

fn queued(ledger: &SourceLedger) -> usize {
    ledger
        .owner
        .capacity(ledger.scope)
        .unwrap()
        .current_frames()
}

fn consumed(device: &TapeDevice) -> u64 {
    device.progress.load(Ordering::Acquire)
}

/// A filter that is warm from its 101st sample on, that begins anew whenever the
/// feedback forgets, and that asks for a new anchor at half a second.
struct Filter {
    forgotten: u64,
    samples: usize,
}

impl Filter {
    fn new() -> Self {
        Self {
            forgotten: 0,
            samples: 0,
        }
    }

    fn advise(&mut self, feedback: &Feedback, outcome: Observed) -> CorrectionSchedule {
        if self.forgotten != feedback.forgotten {
            self.forgotten = feedback.forgotten;
            self.samples = 0;
        }
        let Observed::Measured { error_us } = outcome else {
            return CorrectionSchedule::default();
        };
        self.samples += 1;
        if error_us.abs() >= 500_000 {
            reanchor()
        } else if self.samples < 101 {
            CorrectionSchedule::default()
        } else {
            plan(error_us)
        }
    }
}

fn process(
    worker: &mut ValidatedFeedback,
    filter: &mut Filter,
    expected_us: i64,
    input: ValidatedObservation,
    timeline: u64,
    plans: &ValidatedPlanMailbox,
) -> Option<ValidatedObservation> {
    let reading = ModelReading {
        settled: true,
        expected: Some(at(expected_us)),
    };
    let (reset, outcome) = worker.begin_process(reading, input, timeline)?;
    let advised = filter.advise(&worker.feedback, outcome);
    let decision = decide(outcome, reading, input.input, advised);
    worker.finish_process(
        decision,
        reset,
        input,
        timeline,
        ModelValidity::SameClock,
        plans,
    )
}

#[test]
fn realtime_handoff_probe_tape_actual_fallback_keeps_pcm_and_resumes_cadence() {
    for error in [10_000, -10_000] {
        let samples: Vec<i32> = (1..=503).collect();
        let mut preparation =
            Preparation::with_window_frames(vec![(1, source_pcm(&samples))], 512).unwrap();
        let (mut producer, mut device) = mono(1);
        assert!(producer
            .publish(prepare_tape(&mut preparation, 0, 0, 503))
            .is_ok());
        let schedule = plan(error);
        let mut prefix = [0; 499];
        assert_eq!(device.render(&mut prefix, true, schedule), Some(0));
        assert_eq!(prefix, std::array::from_fn(|i| i as i32 + 1));
        let mut fallback = [0];
        assert_eq!(device.render(&mut fallback, false, schedule), Some(0));
        assert_eq!(fallback, [500]);
        assert_eq!(consumed(&device), 500);
        let mut resumed = [0];
        assert_eq!(device.render(&mut resumed, true, schedule), Some(0));
        assert_eq!(resumed, if error > 0 { [502] } else { [500] });
        assert_eq!(consumed(&device), if error > 0 { 502 } else { 500 });
        let actual = device
            .checkpoint
            .read(&device.gate, &device.progress)
            .unwrap();
        assert_eq!(
            actual
                .cadence
                .insert_counter
                .max(actual.cadence.drop_counter),
            500
        );
        assert_eq!(actual.output_frames, 501);
    }
}

#[test]
fn realtime_handoff_probe_tape_overlap_and_clear_use_actual_source_position() {
    for first_source in [1, (1 << 14) - 1, 1 << 40] {
        let (mut producer, mut device) = mono(2);
        device.gate = Arc::new(ControlGate::resuming(1 << 40));
        let mut ledger = ledger_for(&device);
        ledger.next_source_id = first_source;
        let schedule = CorrectionSchedule::default();
        for (timestamp, samples) in [(0, [1, 2, 3, 4]), (4_000, [10, 11, 12, 13])] {
            enqueue_at(&mut ledger, &device.gate, timestamp, &samples);
        }
        let (view, mut preparation) = ledger.preparation(&device.gate).unwrap();
        assert!(producer
            .publish(prepare_tape(&mut preparation, view.epoch(), 0, 8))
            .is_ok());
        assert_eq!(device.render(&mut [0], true, schedule), Some(0));
        let mut replacement = source_pcm(&[50, 51, 52, 53]);
        replacement.timestamp = 4_000;
        assert_eq!(
            ledger.try_enqueue(replacement, &device.gate, || {}).ok(),
            Some(EnqueueOutcome::Accepted {
                queued_frames: 7,
                queued_buffers: 2
            })
        );
        let (view, mut preparation) = ledger.preparation(&device.gate).unwrap();
        assert!(producer
            .publish(prepare_tape(&mut preparation, view.epoch(), 1, 7))
            .is_ok());
        let mut rest = [0; 7];
        assert_eq!(device.render(&mut rest, false, schedule), Some(0));
        assert_eq!(rest, [2, 3, 4, 50, 51, 52, 53]);
        assert!(ledger.try_reconcile(&device.gate).is_ok());
        assert_eq!(ledger.owner.consumed_frames(ledger.scope), Ok(8));
        assert_eq!(queued(&ledger), 0);
        assert_eq!(producer.reclaim(), 2);
        assert_eq!(
            ledger.try_clear(&device.gate),
            Ok(RendererOperationOutcome::Applied)
        );
        enqueue_at(&mut ledger, &device.gate, 0, &[9, 8]);
        let (view, mut preparation) = ledger.preparation(&device.gate).unwrap();
        assert!(producer
            .publish(prepare_tape(&mut preparation, view.epoch(), 8, 2))
            .is_ok());
        let mut fresh = [0; 2];
        assert_eq!(device.render(&mut fresh, false, schedule), Some(0));
        assert_eq!(fresh, [9, 8]);
        assert!(ledger.try_reconcile(&device.gate).is_ok());
        assert_eq!(ledger.owner.consumed_frames(ledger.scope), Ok(10));
        assert_eq!(producer.reclaim(), 1);
    }
}

#[test]
fn realtime_handoff_probe_tape_settled_observation_survives_full_channel_and_model_loss() {
    let (mut producer, mut device) = mono(1);
    let mut source = Preparation::new(vec![(1, source_pcm(&[1, 2, 3]))]).unwrap();
    assert!(producer.publish(prepare_tape(&mut source, 0, 0, 3)).is_ok());
    let plans = ValidatedPlanMailbox::default();
    let mut reader = ValidatedPlanReader::default();
    let (mut tx, mut rx) = channel::<ValidatedObservation>(1).unwrap();
    let mut output = [0];
    plans.publish(
        0,
        Some(CorrectionSchedule::default()),
        ModelValidity::SampledUnsettled(0),
    );
    assert_eq!(
        device.render_validated_feedback(
            &mut output,
            at(0),
            Some(at(0)),
            0,
            &plans,
            &mut reader,
            &mut tx
        ),
        Some((0, true))
    );
    // The model can be observed even while the associated plan's ack is stale.
    plans.publish_acknowledged(
        0,
        Some(CorrectionSchedule::default()),
        ModelValidity::Sampled(0),
        99,
    );
    assert_eq!(
        device.render_validated_feedback(
            &mut output,
            at(1_000),
            Some(at(1_000)),
            1_000,
            &plans,
            &mut reader,
            &mut tx
        ),
        Some((0, false))
    );
    assert_eq!(output, [2]);
    assert_eq!(
        reader.reset_epoch(),
        0,
        "model metadata must not acknowledge a reset"
    );
    plans.publish(0, None, ModelValidity::Invalid);
    let before_settled = rx.receive().unwrap();
    assert!(!before_settled.input.settled_seen);
    assert_eq!(
        device.render_validated_feedback(
            &mut output,
            at(2_000),
            None,
            2_000,
            &plans,
            &mut reader,
            &mut tx
        ),
        Some((0, true))
    );
    let recovered = rx.receive().unwrap();
    assert!(
        recovered.input.settled_seen,
        "lost first true observation is repeated on fallback"
    );
    assert_eq!(recovered.input.presentation, None);
    assert_eq!(recovered.input.serial, 3);
    assert_eq!(output, [3]);
    assert_eq!(consumed(&device), 3);
}

#[test]
fn realtime_handoff_probe_tape_plan_change_after_snapshot_reuses_pcm_without_replaying_source() {
    for channels in [1usize, 2] {
        let samples: Vec<i32> = (1..=1_010)
            .flat_map(|frame| {
                (0..channels).map(move |channel| if channel == 0 { frame } else { -frame })
            })
            .collect();
        let mut source = source_pcm(&samples);
        source.format.channels = (channels as u8).into();
        let mut canonical = Preparation::with_window_frames(vec![(1, source)], 512).unwrap();
        let checkpoint = Arc::new(PublishedCheckpoint::new(channels));
        let (mut producer, pipe) = pipe_for::<Window>(2).unwrap();
        let mut device = TapeDevice::new(pipe, checkpoint, channels);
        let mut initial = canonical.fork_actual();
        assert!(producer
            .publish(prepare_tape(&mut initial, 0, 0, 510))
            .is_ok());
        let drop_plan = plan(10_000);
        let insert_plan = plan(-10_000);
        let mut prefix = vec![0; 499 * channels];
        assert_eq!(device.render(&mut prefix, true, drop_plan), Some(0));
        assert_eq!(prefix, samples[..499 * channels]);
        let snapshot = device
            .checkpoint
            .read(&device.gate, &device.progress)
            .unwrap();
        assert!(canonical.apply_actual(&snapshot));
        let snapshot_epoch = snapshot.view.view().epoch();
        let snapshot_base = snapshot.source_frames;
        drop(snapshot);
        let mut rebuilding = canonical.fork_actual();
        // Preparation took its snapshot before the next callback. Both the
        // reader position and the correction plan change before publication.
        let mut fallback = vec![0; 2 * channels];
        assert_eq!(device.render(&mut fallback, false, insert_plan), Some(0));
        assert_eq!(fallback, samples[499 * channels..501 * channels]);
        assert_eq!(device.reader.schedule(), drop_plan);
        assert!(producer
            .publish(prepare_tape(
                &mut rebuilding,
                snapshot_epoch,
                snapshot_base,
                510
            ))
            .is_ok());
        let mut changed = vec![0; 500 * channels];
        assert_eq!(device.render(&mut changed, true, insert_plan), Some(0));
        let mut expected = samples[501 * channels..1_000 * channels].to_vec();
        expected.extend_from_slice(&samples[999 * channels..1_000 * channels]);
        assert_eq!(changed, expected);
        assert_eq!(consumed(&device), 1_000);
        assert_eq!(device.reader.cadence_counters().insert, 500);
        assert_eq!(producer.reclaim(), 1);
        let mut next = vec![0; channels];
        assert_eq!(device.render(&mut next, true, insert_plan), Some(0));
        assert_eq!(next, samples[1_000 * channels..1_001 * channels]);
        assert_eq!(consumed(&device), 1_001);
    }
}

#[test]
fn realtime_handoff_probe_tape_clear_commit_invalidates_phase_before_checkpoint_cleanup() {
    for length in [499, 503] {
        let samples: Vec<i32> = (1..=length as i32).collect();
        let mut preparation =
            Preparation::with_window_frames(vec![(1, source_pcm(&samples))], 512).unwrap();
        let (mut producer, mut device) = mono(1);
        assert!(producer
            .publish(prepare_tape(&mut preparation, 0, 0, length))
            .is_ok());
        let schedule = plan(-10_000);
        assert_eq!(device.render(&mut [0; 499], true, schedule), Some(0));
        assert_eq!(device.reader.cadence_counters().insert, 1);
        let gate = Arc::clone(&device.gate);
        let view = gate.observe().unwrap();
        // The clear is committed, and the checkpoint is not cleaned up yet.
        gate.clear(view).unwrap();
        assert!(device.checkpoint.is_valid());
        let mut output = [-1];
        assert_eq!(device.render(&mut output, true, schedule), Some(1));
        assert_eq!(output, [0], "no replay of pre-clear last frame");
        assert!(
            device.reader.place().is_none(),
            "no old position may be republished"
        );
        assert_eq!(consumed(&device), 499);
        device.checkpoint.invalidate_after_clear();
        assert_eq!(producer.reclaim(), 1);
    }
}

#[test]
fn realtime_handoff_probe_tape_paused_reclaim_drains_all_credits_then_resumes() {
    let (mut producer, mut device) = mono(3);
    let mut preparation =
        Preparation::new(vec![(1, source_pcm(&[1, 2, 3, 4, 5, 6, 7, 8]))]).unwrap();
    for base in [0, 2, 4] {
        let tape = prepare_tape(&mut preparation, 0, base, 2);
        assert!(producer.publish(tape).is_ok());
    }
    // Neither prepare nor reclaim runs during this render. All three credits
    // may retire; the seventh output frame is actual exhaustion, not contention.
    let mut output = [0; 7];
    assert_eq!(
        device.render(&mut output, false, CorrectionSchedule::default()),
        Some(1)
    );
    assert_eq!(output, [1, 2, 3, 4, 5, 6, 0]);
    assert_eq!(consumed(&device), 6);
    let pending = prepare_tape(&mut preparation, 0, 6, 2);
    let pending = producer
        .publish(pending)
        .err()
        .expect("internal credits exhausted, payload returned");
    assert_eq!(producer.reclaim(), 3);
    assert!(producer.publish(pending).is_ok());
    let mut resumed = [0; 2];
    assert_eq!(
        device.render(&mut resumed, false, CorrectionSchedule::default()),
        Some(0)
    );
    assert_eq!(resumed, [7, 8]);
    assert_eq!(consumed(&device), 8);
    assert_eq!(producer.reclaim(), 1);
}

#[test]
fn realtime_handoff_probe_tape_single_preparer_retains_pending_and_replaces_view_before_build() {
    let (pipe, mut device) = mono(1);
    let mut producer = TapePreparation::new(pipe);
    producer.reset(0, 0, || {
        Preparation::with_window_frames(vec![(1, source_pcm(&[1, 2, 3, 4]))], 2).unwrap()
    });
    assert!(
        producer.pump(usize::MAX),
        "request is clamped before temporary allocation"
    );
    assert!(!producer.pump(usize::MAX));
    let pending_pcm = producer.pending.as_ref().unwrap().pcm.as_ptr();
    for _ in 0..10 {
        assert!(!producer.pump(usize::MAX));
        assert_eq!(producer.pending.as_ref().unwrap().pcm.as_ptr(), pending_pcm);
        assert_eq!(
            producer.source_base, 4,
            "failed publication must not build further windows"
        );
    }
    let mut output = [0; 2];
    assert_eq!(
        device.render(&mut output, false, CorrectionSchedule::default()),
        Some(0)
    );
    assert_eq!(output, [1, 2]);
    assert_eq!(producer.pipe.reclaim(), 1);
    assert!(producer.pump(2));
    assert_eq!(
        device.render(&mut output, false, CorrectionSchedule::default()),
        Some(0)
    );
    assert_eq!(output, [3, 4]);
    assert_eq!(producer.pipe.reclaim(), 1);
    // Lazy snapshot creation sees the previous view's PCM already released.
    let old_pcm: Arc<[i32]> = Arc::from([9, 10]);
    let weak = Arc::downgrade(&old_pcm);
    let mut old = source_pcm(&[]);
    old.samples = old_pcm;
    producer.reset(0, 4, || Preparation::new(vec![(2, old)]).unwrap());
    producer.reset(1, 4, || {
        assert!(weak.upgrade().is_none());
        Preparation::new(vec![(3, source_pcm(&[11, 12]))]).unwrap()
    });
    assert!(producer.pending.is_none());
    assert_eq!(producer.source_base, 4);
}

#[test]
fn realtime_handoff_probe_tape_preparer_uses_ledger_for_append_overlap_and_clear() {
    let (pipe, mut device) = mono(2);
    let mut ledger = ledger_for(&device);
    let mut producer = TapePreparation::new(pipe);
    let gate = Arc::clone(&device.gate);
    enqueue_at(&mut ledger, &gate, 0, &[1, 2, 3, 4]);
    assert_eq!(producer.pump_from_ledger(&mut ledger, &gate, 8), Ok(true));
    let steady = CorrectionSchedule::default();
    let mut first = [0];
    assert_eq!(device.render(&mut first, false, steady), Some(0));
    assert_eq!(first, [1]);
    enqueue_at(&mut ledger, &gate, 4_000, &[10, 11]);
    assert_eq!(producer.pump_from_ledger(&mut ledger, &gate, 8), Ok(true));
    enqueue_at(&mut ledger, &gate, 4_000, &[50, 51]);
    assert_eq!(producer.pump_from_ledger(&mut ledger, &gate, 8), Ok(false));
    assert!(producer.pending.is_some());
    let mut tail = [0; 3];
    assert_eq!(device.render(&mut tail, false, steady), Some(0));
    assert_eq!(tail, [2, 3, 4]);
    assert_eq!(producer.pipe.reclaim(), 1);
    assert_eq!(producer.pump_from_ledger(&mut ledger, &gate, 8), Ok(true));
    let mut replaced = [0; 2];
    assert_eq!(device.render(&mut replaced, false, steady), Some(0));
    assert_eq!(replaced, [50, 51]);
    assert_eq!(producer.pipe.reclaim(), 2);
    assert_eq!(
        ledger.try_clear(&gate),
        Ok(RendererOperationOutcome::Applied)
    );
    enqueue_at(&mut ledger, &gate, 0, &[9, 8]);
    assert_eq!(producer.pump_from_ledger(&mut ledger, &gate, 8), Ok(true));
    let mut fresh = [0; 2];
    assert_eq!(device.render(&mut fresh, false, steady), Some(0));
    assert_eq!(fresh, [9, 8]);
    assert!(ledger.try_reconcile(&gate).is_ok());
    assert_eq!(ledger.owner.consumed_frames(ledger.scope), Ok(8));
    assert_eq!(queued(&ledger), 0);
}

#[test]
fn realtime_handoff_probe_tape_reanchor_rebuilds_current_time_without_clearing_current_pcm() {
    let (pipe, mut device) = mono(2);
    let mut ledger = ledger_for(&device);
    let mut producer = TapePreparation::new(pipe);
    let gate = Arc::clone(&device.gate);
    for (timestamp, pcm) in [
        (0, [1, 2, 3, 4]),
        (10_000, [10, 11, 12, 13]),
        (20_000, [20, 21, 22, 23]),
    ] {
        enqueue_at(&mut ledger, &gate, timestamp, &pcm);
    }
    assert_eq!(producer.pump_from_ledger(&mut ledger, &gate, 16), Ok(true));
    let steady = CorrectionSchedule::default();
    let mut first = [0];
    assert_eq!(device.render(&mut first, false, steady), Some(0));
    assert_eq!(first, [1]);
    assert_eq!(ledger.try_reanchor(&gate, 20_000), Ok(()));
    assert_eq!(producer.pump_from_ledger(&mut ledger, &gate, 16), Ok(true));
    let mut tail = [0; 4];
    assert_eq!(device.render(&mut tail, false, steady), Some(0));
    assert_eq!(tail, [2, 3, 4, 23]);
    let actual = device.checkpoint.read(&gate, &device.progress).unwrap();
    assert_eq!(actual.position.cursor_us, 24_000);
    assert_eq!(actual.source_frames, 5);
    drop(actual);
    assert!(ledger.try_reconcile(&gate).is_ok());
    assert_eq!(ledger.owner.consumed_frames(ledger.scope), Ok(5));
    assert_eq!(queued(&ledger), 0);
    assert_eq!(producer.pipe.reclaim(), 2);
}

#[test]
fn realtime_handoff_probe_tape_reanchor_only_skipped_sources_releases_capacity_without_consumption()
{
    let (pipe, mut device) = mono(2);
    let mut ledger = ledger_for(&device);
    let mut producer = TapePreparation::new(pipe);
    let gate = Arc::clone(&device.gate);
    enqueue_at(&mut ledger, &gate, 0, &[1, 2, 3, 4]);
    assert_eq!(producer.pump_from_ledger(&mut ledger, &gate, 8), Ok(true));
    assert_eq!(ledger.try_reanchor(&gate, 20_000), Ok(()));
    assert_eq!(
        producer.pump_from_ledger(&mut ledger, &gate, 8),
        Ok(true),
        "publish skipped-source position even with no PCM"
    );
    let steady = CorrectionSchedule::default();
    let mut output = [-1; 2];
    assert_eq!(device.render(&mut output, false, steady), Some(2));
    assert_eq!(output, [0, 0]);
    assert!(ledger.try_reconcile(&gate).is_ok());
    assert_eq!(ledger.owner.consumed_frames(ledger.scope), Ok(0));
    assert_eq!(queued(&ledger), 0);
    assert_eq!(producer.pipe.reclaim(), 2);
    assert_eq!(
        producer.pump_from_ledger(&mut ledger, &gate, 8),
        Ok(false),
        "no repeated empty publications"
    );
    enqueue_at(&mut ledger, &gate, 20_000, &[9, 8]);
    assert_eq!(producer.pump_from_ledger(&mut ledger, &gate, 8), Ok(true));
    assert_eq!(device.render(&mut output, false, steady), Some(0));
    assert_eq!(output, [9, 8]);
    assert!(ledger.try_reconcile(&gate).is_ok());
    assert_eq!(ledger.owner.consumed_frames(ledger.scope), Ok(2));
}

#[test]
fn realtime_handoff_probe_tape_published_plan_respects_timeline_and_model_invalidation() {
    let plans = PlanMailbox::default();
    let (mut producer, mut device) = mono(2);
    let mut source =
        Preparation::with_window_frames(vec![(1, source_pcm(&(1..=503).collect::<Vec<_>>()))], 512)
            .unwrap();
    assert!(producer
        .publish(prepare_tape(&mut source, 0, 0, 503))
        .is_ok());
    let correcting = plan(-10_000);
    plans.publish(0, Some(correcting));
    assert_eq!(
        device.render_published(&mut [0; 499], true, &plans),
        Some(0)
    );
    assert_eq!(device.reader.cadence_counters().insert, 1);
    // Missing actual timestamp preserves phase; explicit model invalidation
    // must clear it even on this same fallback path.
    plans.publish(0, None);
    let mut frame = [0];
    assert_eq!(device.render_published(&mut frame, false, &plans), Some(0));
    assert_eq!(frame, [500]);
    assert_eq!(device.reader.schedule(), CorrectionSchedule::default());
    plans.publish(0, Some(correcting));
    let gate = Arc::clone(&device.gate);
    let cleared = gate.clear(gate.observe().unwrap()).unwrap();
    let mut fresh = Preparation::new(vec![(2, source_pcm(&[9, 8]))]).unwrap();
    assert!(producer
        .publish(prepare_tape(&mut fresh, cleared.epoch(), 500, 2))
        .is_ok());
    assert_eq!(device.render_published(&mut frame, true, &plans), Some(0));
    assert_eq!(frame, [9]);
    assert_eq!(
        device.reader.schedule(),
        CorrectionSchedule::default(),
        "old plan cannot reactivate after clear"
    );
    // Overlap preparation epochs do not by themselves reset the sync timeline.
    plans.publish(cleared.epoch(), Some(correcting));
    gate.replace(gate.observe().unwrap()).unwrap();
    assert_eq!(device.render_published(&mut frame, true, &plans), Some(0));
    assert_eq!(frame, [8]);
    assert_eq!(device.reader.schedule(), correcting);
    assert_eq!(producer.reclaim(), 2);
    let reanchored = gate.reanchor(gate.observe().unwrap()).unwrap();
    let mut later = Preparation::new(vec![(3, source_pcm(&[7]))]).unwrap();
    assert!(producer
        .publish(prepare_tape(&mut later, reanchored.epoch(), 502, 1))
        .is_ok());
    assert_eq!(device.render_published(&mut frame, true, &plans), Some(0));
    assert_eq!(frame, [7]);
    assert_eq!(
        device.reader.schedule(),
        CorrectionSchedule::default(),
        "old plan cannot reactivate after reanchor"
    );
}

#[test]
fn realtime_handoff_probe_tape_cross_clock_feedback_drives_actual_correction_and_expiry() {
    // The source's clock is 100 ms ahead of the local one.
    let due = |cursor: i64| ModelReading {
        settled: true,
        expected: Some(at(cursor - 100_000)),
    };
    let plans = PlanMailbox::default();
    let mut feedback = Feedback::new();
    let mut filter = Filter::new();
    let (mut producer, mut device) = mono(1);
    let mut source = source_pcm(&(1..=610).collect::<Vec<_>>());
    source.timestamp = 10_100_000;
    let mut preparation = Preparation::with_window_frames(vec![(1, source)], 1024).unwrap();
    assert!(producer
        .publish(prepare_tape(&mut preparation, 0, 0, 610))
        .is_ok());
    for serial in 1..=101 {
        let timeline = device.reader.present_timeline();
        let observation = Observation {
            settled_seen: true,
            timeline,
            serial,
            source_cursor_us: device
                .reader
                .place()
                .map_or(10_100_000, |position| position.cursor_us),
            presentation: Some(at(10_010_000 + (serial as i64 - 1) * 1_000)),
            actual_schedule: device.reader.schedule(),
        };
        let mut frame = [0];
        assert_eq!(device.render_published(&mut frame, true, &plans), Some(0));
        assert_eq!(frame, [serial as i32]);
        let reading = due(observation.source_cursor_us);
        let outcome = feedback.compute_observation(reading, observation, timeline);
        let advised = filter.advise(&feedback, outcome);
        feedback.publish_observation(
            decide(outcome, reading, observation, advised),
            timeline,
            &plans,
        );
    }
    assert_eq!(plans.read(0).unwrap().unwrap().drop_every_n_frames, 500);
    let mut prefix = [0; 499];
    assert_eq!(device.render_published(&mut prefix, true, &plans), Some(0));
    assert_eq!(prefix, std::array::from_fn(|i| i as i32 + 102));
    let mut frame = [0];
    assert_eq!(device.render_published(&mut frame, true, &plans), Some(0));
    assert_eq!(frame, [602]);
    assert_eq!(consumed(&device), 602);
    // The model is lost.
    let timeline = device.reader.present_timeline();
    let observation = Observation {
        settled_seen: true,
        timeline,
        serial: 102,
        source_cursor_us: device.reader.place().unwrap().cursor_us,
        presentation: None,
        actual_schedule: device.reader.schedule(),
    };
    let lost = ModelReading {
        settled: false,
        expected: None,
    };
    let outcome = feedback.compute_observation(lost, observation, timeline);
    let advised = filter.advise(&feedback, outcome);
    feedback.publish_observation(
        decide(outcome, lost, observation, advised),
        timeline,
        &plans,
    );
    assert_eq!(plans.read(0), Some(None));
    assert_eq!(device.render_published(&mut frame, false, &plans), Some(0));
    assert_eq!(frame, [603]);
    assert_eq!(device.reader.schedule(), CorrectionSchedule::default());
}

#[test]
fn realtime_handoff_probe_tape_reuses_owner_close_and_scope_fence_without_consuming_old_pcm() {
    let (mut producer, mut device) = mono(1);
    let mut ledger = ledger_for(&device);
    device.owner = Some((ledger.owner.clone(), ledger.scope));
    let gate = Arc::clone(&device.gate);
    enqueue_at(&mut ledger, &gate, 0, &[1, 2]);
    let (view, mut source) = ledger.preparation(&gate).unwrap();
    assert!(producer
        .publish(prepare_tape(&mut source, view.epoch(), 0, 2))
        .is_ok());
    assert_eq!(
        ledger.owner.close(ledger.scope),
        RendererOperationOutcome::Applied
    );
    let mut output = [-1; 2];
    assert_eq!(
        device.render(&mut output, false, CorrectionSchedule::default()),
        Some(2)
    );
    assert_eq!(output, [0, 0]);
    assert_eq!(consumed(&device), 0);
    assert!(matches!(
        ledger.try_enqueue(source_pcm(&[3]), &gate, || {}),
        Ok(EnqueueOutcome::Closed)
    ));
    // A scope is replaced only once it has ended.
    ledger.owner.teardown(ledger.scope);
    let replacement = ledger.owner.mint_scope().unwrap();
    assert_ne!(replacement, ledger.scope);
    assert!(matches!(
        ledger.try_enqueue(source_pcm(&[4]), &gate, || {}),
        Ok(EnqueueOutcome::StaleScope)
    ));
    let plans = PlanMailbox::default();
    assert_eq!(device.render_published(&mut output, true, &plans), Some(2));
    assert_eq!(output, [0, 0]);
    assert_eq!(consumed(&device), 0);
}

#[test]
fn realtime_handoff_probe_tape_start_boundary_and_cancel_control_actual_pcm_consumption() {
    for cancelled in [false, true] {
        let (mut producer, mut device) = mono(1);
        let mut source = Preparation::new(vec![(1, source_pcm(&[10, 20]))]).unwrap();
        assert!(producer.publish(prepare_tape(&mut source, 0, 0, 2)).is_ok());
        let start = StartAuthority::default();
        assert_eq!(start.arm(100), ScheduledArmOutcome::Armed);
        let plans = PlanMailbox::default();
        let mut output = [-1];
        for presentation in [None, Some(99)] {
            assert_eq!(
                device.render_scheduled(&mut output, presentation, true, &plans, &start),
                None
            );
            assert_eq!(output, [0]);
            assert_eq!(consumed(&device), 0);
            assert_eq!(producer.reclaim(), 0);
        }
        if cancelled {
            start.cancel().unwrap();
        }
        assert_eq!(
            device.render_scheduled(&mut output, Some(100), true, &plans, &start),
            if cancelled { None } else { Some(0) }
        );
        assert_eq!(output, if cancelled { [0] } else { [10] });
        if !cancelled {
            assert_eq!(start.cancel(), Err(100));
        }
        assert_eq!(
            device.render_scheduled(&mut output, None, false, &plans, &start),
            if cancelled { None } else { Some(0) }
        );
        assert_eq!(output, if cancelled { [0] } else { [20] });
        assert_eq!(consumed(&device), if cancelled { 0 } else { 2 });
        assert_eq!(producer.reclaim(), usize::from(!cancelled));
    }
}

#[test]
fn realtime_handoff_probe_separate_clear_and_start_can_freeze_a_revoked_boundary() {
    let (mut producer, mut device) = mono(1);
    let mut ledger = ledger_for(&device);
    let gate = Arc::clone(&device.gate);
    enqueue_at(&mut ledger, &gate, 0, &[10, 20]);
    let (view, mut source) = ledger.preparation(&gate).unwrap();
    assert!(producer
        .publish(prepare_tape(&mut source, view.epoch(), 0, 2))
        .is_ok());
    let start = StartAuthority::default();
    assert_eq!(start.arm(100), ScheduledArmOutcome::Armed);
    assert_eq!(
        ledger.owner.arm_scheduled_start(ledger.scope, 100),
        Ok(ScheduledArmOutcome::Armed)
    );
    let plans = PlanMailbox::default();
    let mut output = [-1];
    // The source is cleared, and the separate start is not. A callback can then
    // win the boundary that was revoked.
    assert_eq!(
        ledger.try_clear_with(&gate, || {
            assert_eq!(
                device.render_scheduled(&mut output, Some(100), true, &plans, &start),
                Some(1)
            );
            start.clear_unstarted();
        }),
        Ok(RendererOperationOutcome::Applied)
    );
    assert_eq!(output, [0]);
    assert_eq!(consumed(&device), 0);
    assert_eq!(
        start.arm(200),
        ScheduledArmOutcome::BoundaryAlreadyWon {
            start_at_zone_us: 100
        }
    );
    assert_eq!(
        ledger.owner.arm_scheduled_start(ledger.scope, 200),
        Ok(ScheduledArmOutcome::Armed)
    );
}

#[test]
fn realtime_handoff_probe_gate_start_clear_and_rearm_share_pcm_revocation() {
    for boundary_won in [false, true] {
        let (mut producer, mut device) = mono(2);
        let mut ledger = ledger_for(&device);
        let gate = Arc::clone(&device.gate);
        let start = GateStartAuthority::new(Arc::clone(&gate));
        let plans = PlanMailbox::default();
        enqueue_at(&mut ledger, &gate, 0, &[10, 20]);
        let (view, mut source) = ledger.preparation(&gate).unwrap();
        assert!(producer
            .publish(prepare_tape(&mut source, view.epoch(), 0, 2))
            .is_ok());
        assert_eq!(start.arm(100), Ok(ScheduledArmOutcome::Armed));
        let mut output = [-1];
        if boundary_won {
            assert_eq!(
                device.render_scheduled(&mut output, Some(100), true, &plans, &start),
                Some(0)
            );
            assert_eq!(output, [10]);
        }
        assert_eq!(
            ledger.try_clear_with(&gate, || {
                // The source is revoked, and the clear has not returned.
                assert_eq!(
                    device.render_scheduled(&mut output, Some(100), true, &plans, &start),
                    Some(1)
                );
                assert_eq!(output, [0]);
            }),
            Ok(RendererOperationOutcome::Applied)
        );
        let expected = if boundary_won {
            ScheduledArmOutcome::BoundaryAlreadyWon {
                start_at_zone_us: 100,
            }
        } else {
            ScheduledArmOutcome::Armed
        };
        assert_eq!(start.arm(200), Ok(expected));
        // Leave another clear notice pending across re-arm: the next callback
        // must not erase the newly armed boundary just because it sees a notice.
        assert_eq!(
            ledger.try_clear(&gate),
            Ok(RendererOperationOutcome::Applied)
        );
        assert_eq!(start.arm(200), Ok(expected));
        enqueue_at(&mut ledger, &gate, 0, &[30, 40]);
        let (view, mut source) = ledger.preparation(&gate).unwrap();
        let base = consumed(&device);
        assert!(producer
            .publish(prepare_tape(&mut source, view.epoch(), base, 2))
            .is_ok());
        assert_eq!(
            device.render_scheduled(&mut output, Some(100), true, &plans, &start),
            if boundary_won { Some(0) } else { None }
        );
        assert_eq!(output, if boundary_won { [30] } else { [0] });
        if !boundary_won {
            assert_eq!(
                device.render_scheduled(&mut output, Some(200), true, &plans, &start),
                Some(0)
            );
            assert_eq!(output, [30]);
        }
        assert_eq!(
            device.render_scheduled(&mut output, None, false, &plans, &start),
            Some(0)
        );
        assert_eq!(output, [40]);
        assert_eq!(consumed(&device), base + 2);
        assert_eq!(start.cancel(), Err(if boundary_won { 100 } else { 200 }));
    }
}

#[test]
fn realtime_handoff_probe_tape_actual_feedback_survives_paused_worker_and_full_channel() {
    let plans = PlanMailbox::default();
    let (mut producer, mut device) = mono(1);
    let mut source = Preparation::new(vec![(1, source_pcm(&[1, 2, 3, 4, 5, 6]))]).unwrap();
    assert!(producer.publish(prepare_tape(&mut source, 0, 0, 6)).is_ok());
    let (mut tx, mut rx) = channel::<Observation>(2).unwrap();
    let mut feedback = Feedback::new();
    let mut filter = Filter::new();
    let mut seen = Vec::new();
    let mut output = [-1];
    // The worker is paused. The initial cursor is carried by the accepted window;
    // observations beyond the two slots are dropped without interrupting PCM.
    for (sample, published) in [(1, true), (2, true), (3, false), (4, false)] {
        assert_eq!(
            device.render_feedback(&mut output, Some(at((sample - 1) * 1_000)), &plans, &mut tx),
            Some((0, published))
        );
        assert_eq!(output, [sample as i32]);
    }
    assert_eq!(consumed(&device), 4);
    for count in [2, 1] {
        for _ in 0..count {
            let observation = rx.receive().unwrap();
            seen.push((
                observation.serial,
                observation.source_cursor_us,
                observation.presentation,
            ));
            let reading = ModelReading {
                settled: true,
                expected: Some(at(observation.source_cursor_us)),
            };
            let outcome = feedback.compute_observation(reading, observation, 0);
            let advised = filter.advise(&feedback, outcome);
            feedback.publish_observation(
                decide(outcome, reading, observation, advised),
                0,
                &plans,
            );
        }
        if count == 2 {
            assert_eq!(
                device.render_feedback(&mut output, None, &plans, &mut tx),
                Some((0, true))
            );
            assert_eq!(output, [5]);
        }
    }
    assert_eq!(
        seen,
        vec![
            (1, 0, Some(at(0))),
            (2, 1_000, Some(at(1_000))),
            (5, 4_000, None)
        ]
    );
    assert_eq!(consumed(&device), 5);
    // Missing observations and fallback preserve the last measured plan.
    assert_eq!(plans.read(0), Some(Some(CorrectionSchedule::default())));
}

#[test]
fn realtime_handoff_probe_tape_feedback_origin_tracks_initial_clear_and_reanchor() {
    let (mut producer, mut device) = mono(2);
    let mut ledger = ledger_for(&device);
    let gate = Arc::clone(&device.gate);
    let plans = PlanMailbox::default();
    let (mut tx, mut rx) = channel::<Observation>(1).unwrap();
    enqueue_at(&mut ledger, &gate, 10_000, &[10, 20]);
    let (view, mut source) = ledger.preparation(&gate).unwrap();
    assert!(producer
        .publish(prepare_tape(&mut source, view.epoch(), 0, 2))
        .is_ok());
    let mut output = [-1];
    assert_eq!(
        device.render_feedback(&mut output, None, &plans, &mut tx),
        Some((0, true))
    );
    assert_eq!(output, [10]);
    let observation = rx.receive().unwrap();
    assert_eq!(
        (observation.timeline, observation.source_cursor_us),
        (view.epoch(), 10_000)
    );
    ledger.try_reanchor(&gate, 20_000).unwrap();
    let (view, mut source) = ledger.preparation(&gate).unwrap();
    assert!(producer
        .publish(prepare_tape(&mut source, view.epoch(), 1, 2))
        .is_ok());
    assert_eq!(
        device.render_feedback(&mut output, None, &plans, &mut tx),
        Some((0, true))
    );
    assert_eq!(
        output,
        [20],
        "reanchor preserves the partially consumed current"
    );
    let observation = rx.receive().unwrap();
    assert_eq!(
        (observation.timeline, observation.source_cursor_us),
        (view.epoch(), 20_000)
    );
    assert_eq!(producer.reclaim(), 2);
    assert_eq!(
        ledger.try_clear(&gate),
        Ok(RendererOperationOutcome::Applied)
    );
    enqueue_at(&mut ledger, &gate, 30_000, &[30, 40]);
    let (view, mut source) = ledger.preparation(&gate).unwrap();
    assert!(producer
        .publish(prepare_tape(&mut source, view.epoch(), 2, 2))
        .is_ok());
    assert_eq!(
        device.render_feedback(&mut output, None, &plans, &mut tx),
        Some((0, true))
    );
    assert_eq!(output, [30]);
    let observation = rx.receive().unwrap();
    assert_eq!(
        (observation.timeline, observation.source_cursor_us),
        (view.epoch(), 30_000)
    );
    assert_eq!(consumed(&device), 3);
}

#[test]
fn realtime_handoff_probe_tape_feedback_reports_plan_actually_applied_in_same_callback() {
    let (mut producer, mut device) = mono(1);
    let mut source =
        Preparation::with_window_frames(vec![(1, source_pcm(&(1..=510).collect::<Vec<_>>()))], 512)
            .unwrap();
    assert!(producer
        .publish(prepare_tape(&mut source, 0, 0, 510))
        .is_ok());
    let (mut tx, mut rx) = channel::<Observation>(1).unwrap();
    let plans = PlanMailbox::default();
    let drop_plan = plan(10_000);
    let insert_plan = plan(-10_000);
    plans.publish(0, Some(drop_plan));
    let mut prefix = [0; 499];
    assert_eq!(
        device.render_feedback(&mut prefix, Some(at(0)), &plans, &mut tx),
        Some((0, true))
    );
    assert_eq!(prefix, std::array::from_fn(|i| i as i32 + 1));
    let observation = rx.receive().unwrap();
    assert_eq!(observation.source_cursor_us, 0);
    assert_eq!(observation.presentation, Some(at(0)));
    assert_eq!(observation.actual_schedule, drop_plan);
    plans.publish(0, Some(insert_plan));
    let mut output = [0];
    // Fallback does not apply the newly published plan or advance correction.
    assert_eq!(
        device.render_feedback(&mut output, None, &plans, &mut tx),
        Some((0, true))
    );
    assert_eq!(output, [500]);
    let observation = rx.receive().unwrap();
    assert_eq!(observation.source_cursor_us, 499_000);
    assert_eq!(observation.presentation, None);
    assert_eq!(observation.actual_schedule, drop_plan);
    assert_eq!(
        device.render_feedback(&mut output, Some(at(500_000)), &plans, &mut tx),
        Some((0, true))
    );
    assert_eq!(output, [501]);
    let observation = rx.receive().unwrap();
    assert_eq!(observation.source_cursor_us, 500_000);
    assert_eq!(observation.presentation, Some(at(500_000)));
    assert_eq!(observation.actual_schedule, insert_plan);
    plans.publish(0, None);
    assert_eq!(
        device.render_feedback(&mut output, None, &plans, &mut tx),
        Some((0, true))
    );
    assert_eq!(output, [502]);
    let observation = rx.receive().unwrap();
    assert_eq!(observation.source_cursor_us, 501_000);
    assert_eq!(observation.actual_schedule, CorrectionSchedule::default());
    assert_eq!(consumed(&device), 502);
}

#[test]
fn realtime_handoff_probe_tape_old_plan_expires_while_publication_is_paused() {
    let plans = ValidatedPlanMailbox::default();
    let drop_plan = plan(10_000);
    let insert_plan = plan(-10_000);
    plans.publish(0, Some(drop_plan), ModelValidity::Sampled(9_002_000));
    let (mut producer, mut device) = mono(1);
    let mut source =
        Preparation::with_window_frames(vec![(1, source_pcm(&(1..=510).collect::<Vec<_>>()))], 512)
            .unwrap();
    assert!(producer
        .publish(prepare_tape(&mut source, 0, 0, 510))
        .is_ok());
    let mut cache = ValidatedPlanReader::default();
    let mut prefix = [0; 499];
    assert_eq!(
        device.render_validated_plan(&mut prefix, true, 14_002_000, &plans, &mut cache),
        Some(0)
    );
    assert_eq!(prefix, std::array::from_fn(|i| i as i32 + 1));
    assert_eq!(device.reader.cadence_counters().drop, 1);
    let mut output = [0];
    let mut missing = None;
    assert!(plans.publish_after_open(
        0,
        Some(insert_plan),
        ModelValidity::Sampled(14_002_001),
        0,
        || {
            missing =
                device.render_validated_plan(&mut output, true, 14_002_001, &plans, &mut cache);
        },
    ));
    assert_eq!(missing, Some(0));
    assert_eq!(output, [500], "expired drop must not discard sample 500");
    assert_eq!(device.reader.schedule(), CorrectionSchedule::default());
    plans.publish_acknowledged(
        0,
        Some(insert_plan),
        ModelValidity::Sampled(14_002_001),
        cache.reset_epoch(),
    );
    assert_eq!(
        device.render_validated_plan(&mut output, true, 14_002_001, &plans, &mut cache),
        Some(0)
    );
    assert_eq!(output, [501]);
    assert_eq!(device.reader.schedule(), insert_plan);
    assert_eq!(consumed(&device), 501);
    assert_eq!(
        device.render_validated_plan(&mut output, false, 14_002_000, &plans, &mut cache),
        Some(0)
    );
    assert_eq!(output, [502]);
    assert_eq!(
        device.reader.schedule(),
        CorrectionSchedule::default(),
        "backwards endpoint invalidates even on fallback"
    );
    assert_eq!(
        device.render_validated_plan(&mut output, true, 14_002_001, &plans, &mut cache),
        Some(0)
    );
    assert_eq!(output, [503]);
    assert_eq!(
        device.reader.schedule(),
        CorrectionSchedule::default(),
        "invalidated publication cannot revive without a new plan"
    );
    plans.publish_acknowledged(
        0,
        Some(insert_plan),
        ModelValidity::Sampled(14_002_001),
        cache.reset_epoch(),
    );
    assert_eq!(
        device.render_validated_plan(&mut output, true, 14_002_001, &plans, &mut cache),
        Some(0)
    );
    assert_eq!(output, [504]);
    assert_eq!(
        device.reader.schedule(),
        insert_plan,
        "a new complete publication can restore correction"
    );
}

#[test]
fn realtime_handoff_probe_tape_fallback_cached_default_cannot_hide_actual_plan_reset() {
    let plans = ValidatedPlanMailbox::default();
    let mut cache = ValidatedPlanReader::default();
    let drop_plan = plan(10_000);
    plans.publish(0, Some(drop_plan), ModelValidity::Sampled(0));
    let (mut producer, mut device) = mono(1);
    let mut source = Preparation::new(vec![(1, source_pcm(&[1, 2, 3, 4]))]).unwrap();
    assert!(producer.publish(prepare_tape(&mut source, 0, 0, 4)).is_ok());
    let mut output = [0];
    assert_eq!(
        device.render_validated_plan(&mut output, true, 0, &plans, &mut cache),
        Some(0)
    );
    assert_eq!(output, [1]);
    plans.publish(
        0,
        Some(CorrectionSchedule::default()),
        ModelValidity::Sampled(0),
    );
    assert_eq!(
        device.render_validated_plan(&mut output, false, 1, &plans, &mut cache),
        Some(0)
    );
    assert_eq!(output, [2]);
    assert_eq!(device.reader.schedule(), drop_plan);
    assert_eq!(
        device.render_validated_plan(&mut output, false, 5_000_001, &plans, &mut cache),
        Some(0)
    );
    assert_eq!(output, [3]);
    assert_eq!(device.reader.schedule(), CorrectionSchedule::default());
    assert_eq!(
        cache.reset_epoch(),
        1,
        "the applied drop was cleared despite a cached default"
    );
    plans.publish(0, Some(drop_plan), ModelValidity::Sampled(5_000_001));
    assert_eq!(
        device.render_validated_plan(&mut output, true, 5_000_001, &plans, &mut cache),
        Some(0)
    );
    assert_eq!(output, [4]);
    assert_eq!(device.reader.schedule(), CorrectionSchedule::default());
}

#[test]
fn realtime_handoff_probe_tape_validated_feedback_retries_reset_after_full_channel() {
    let plans = ValidatedPlanMailbox::default();
    let (mut tx, mut rx) = channel::<ValidatedObservation>(2).unwrap();
    let mut feedback = ValidatedFeedback::new();
    let mut filter = Filter::new();
    // Warm the filter.
    for serial in 1..=101 {
        let input = ValidatedObservation {
            latency_floor_ns: None,
            input: Observation {
                settled_seen: true,
                timeline: 0,
                serial,
                source_cursor_us: 0,
                presentation: Some(at(10_000)),
                actual_schedule: CorrectionSchedule::default(),
            },
            reset_epoch: 0,
        };
        let _ = process(&mut feedback, &mut filter, 0, input, 0, &plans);
    }
    let (mut producer, mut device) = mono(1);
    device.feedback_serial = 101;
    let mut source = Preparation::new(vec![(1, source_pcm(&[1, 2, 3, 4, 5]))]).unwrap();
    assert!(producer.publish(prepare_tape(&mut source, 0, 0, 5)).is_ok());
    let mut reader = ValidatedPlanReader::default();
    let drop_plan = plan(10_000);
    plans.publish(0, Some(drop_plan), ModelValidity::Sampled(0));
    let mut output = [-1];
    for sample in 1..=2 {
        assert_eq!(
            device.render_validated_feedback(
                &mut output,
                at((sample - 1) * 1_000),
                Some(at(10_000 + (sample - 1) * 1_000)),
                0,
                &plans,
                &mut reader,
                &mut tx
            ),
            Some((0, true))
        );
        assert_eq!(output, [sample as i32]);
    }
    assert_eq!(device.reader.schedule(), drop_plan);
    // The plan expires while the worker is paused and both slots are from before.
    assert_eq!(
        device.render_validated_feedback(
            &mut output,
            at(5_000_001),
            None,
            5_000_001,
            &plans,
            &mut reader,
            &mut tx
        ),
        Some((0, false))
    );
    assert_eq!(output, [3]);
    assert_eq!(reader.reset_epoch(), 1);
    assert_eq!(device.reader.schedule(), CorrectionSchedule::default());
    let mut seen = Vec::new();
    for count in [2, 1] {
        for _ in 0..count {
            let observation = rx.receive().unwrap();
            seen.push((
                observation.input.serial,
                observation.reset_epoch,
                observation.input.source_cursor_us,
                observation.input.actual_schedule,
            ));
            let due = observation.input.source_cursor_us;
            let _ = process(&mut feedback, &mut filter, due, observation, 0, &plans);
        }
        if count == 2 {
            // The worker has published fresh results from before the reset. They must
            // not restore correction, and the next fallback reports the reset again.
            assert_eq!(
                device.render_validated_feedback(
                    &mut output,
                    at(5_000_001),
                    None,
                    5_000_001,
                    &plans,
                    &mut reader,
                    &mut tx
                ),
                Some((0, true))
            );
            assert_eq!(output, [4]);
            assert_eq!(device.reader.schedule(), CorrectionSchedule::default());
        }
    }
    assert_eq!(
        seen,
        vec![
            (102, 0, 0, drop_plan),
            (103, 0, 1_000, drop_plan),
            (105, 1, 3_000, CorrectionSchedule::default()),
        ]
    );
    assert_eq!(
        reader.read(&plans, 0, 5_000_001, device.reader.schedule()),
        Some(Some(CorrectionSchedule::default())),
        "worker acknowledged actual reset"
    );
    assert_eq!(
        device.render_validated_plan(&mut output, true, 5_000_001, &plans, &mut reader),
        Some(0)
    );
    assert_eq!(output, [5]);
    assert_eq!(consumed(&device), 5);
}

#[test]
fn realtime_handoff_probe_tape_delayed_reanchor_needs_time_not_consumption_delta() {
    let health = ModelHealth {
        synchronized: true,
        settled: true,
        last_valid_t4_us: None,
    };
    for preparation_delay_us in [0, 20_000, 600_000] {
        let mut feedback = ValidatedFeedback::new();
        let mut filter = Filter::new();
        let plans = ValidatedPlanMailbox::default();
        let mut cache = ValidatedPlanReader::default();
        let (mut tx, mut rx) = channel::<ValidatedObservation>(1).unwrap();
        let (pipe, mut device) = mono(2);
        let mut ledger = ledger_for(&device);
        let mut producer = TapePreparation::new(pipe);
        let gate = Arc::clone(&device.gate);
        for (timestamp, pcm) in [
            (0, [1, 2, 3, 4]),
            (10_000, [10, 11, 12, 13]),
            (20_000, [20, 21, 22, 23]),
        ] {
            enqueue_at(&mut ledger, &gate, timestamp, &pcm);
        }
        assert_eq!(producer.pump_from_ledger(&mut ledger, &gate, 16), Ok(true));
        let mut sample = [0];
        assert_eq!(
            device.render_validated_feedback(
                &mut sample,
                at(0),
                Some(at(1_000)),
                0,
                &plans,
                &mut cache,
                &mut tx
            ),
            Some((0, true))
        );
        assert_eq!(sample, [1]);
        // The worker does not receive this earlier sample, but the device floor
        // must survive and accompany its next measurement.
        let _ = rx.receive().unwrap();
        assert_eq!(
            device.render_validated_feedback(
                &mut sample,
                at(0),
                Some(at(600_000)),
                0,
                &plans,
                &mut cache,
                &mut tx
            ),
            Some((0, true))
        );
        assert_eq!(sample, [2]);
        let measured = rx.receive().unwrap();
        let due = measured.input.source_cursor_us - 2_000;
        let request = process(&mut feedback, &mut filter, due, measured, 0, &plans)
            .expect("a measured observation must reach reanchor control");
        assert_eq!(request.latency_floor_ns, Some(1_000_000));
        assert_eq!(consumed(&device), 2);
        let original_epoch = gate.view().epoch();
        let target = |now: i64| {
            // The device's latency floor is 1 ms and the configured delay is 2 ms.
            Some(now + (request.latency_floor_ns.unwrap() / 1_000) as i64 + 2_000)
        };
        assert_eq!(
            ledger.try_reanchor_with(&gate, || {
                let target = target(7_000);
                assert_eq!(target, Some(10_000));
                // A callback advances after reconciliation, before the control commit.
                let mut advanced = [0];
                assert_eq!(
                    device.render(&mut advanced, false, CorrectionSchedule::default()),
                    Some(0)
                );
                assert_eq!(advanced, [3]);
                target
            }),
            Err(())
        );
        assert_eq!(gate.view().epoch(), original_epoch);
        assert_eq!(
            ledger.preparation(&gate).unwrap().1.cursor.cursor_us,
            3_000,
            "failed control did not commit its target"
        );
        assert_eq!(
            ledger.try_reanchor_with(&gate, || target(17_000)),
            Ok(20_000)
        );
        let timeline = gate.view().epoch();
        feedback.reanchor_committed(timeline, health, &plans);
        assert!(
            process(&mut feedback, &mut filter, due, request, timeline, &plans).is_none(),
            "old triggering observation cannot issue another command on the new timeline"
        );
        let now = 17_000 + preparation_delay_us;
        assert_eq!(producer.pump_from_ledger(&mut ledger, &gate, 16), Ok(true));
        let mut tail = [0; 4];
        assert_eq!(
            device.render_validated_feedback(
                &mut tail,
                at(now),
                Some(at(now + 1_000)),
                now,
                &plans,
                &mut cache,
                &mut tx
            ),
            Some((0, true))
        );
        let observed = rx.receive().unwrap();
        assert_eq!(observed.input.source_cursor_us, 20_000);
        let expected = 20_000 - 2_000;
        assert_eq!(
            observed.input.presentation.unwrap(),
            at(expected + preparation_delay_us)
        );
        let next_request = process(
            &mut feedback,
            &mut filter,
            expected,
            observed,
            timeline,
            &plans,
        );
        assert_eq!(
            next_request.is_some(),
            preparation_delay_us >= 500_000,
            "post-commit preparation delay remains a real error, not hidden by consumption"
        );
        assert_eq!(tail, [4, 21, 22, 23]);
        assert!(ledger.try_reconcile(&gate).is_ok());
        assert_eq!(ledger.owner.consumed_frames(ledger.scope), Ok(7));
        assert_eq!(queued(&ledger), 0);
    }
}

#[test]
fn realtime_handoff_probe_tape_latency_floor_survives_full_feedback_and_reanchor_but_not_clear() {
    let (pipe, mut device) = mono(3);
    let mut ledger = ledger_for(&device);
    let gate = Arc::clone(&device.gate);
    let mut producer = TapePreparation::new(pipe);
    enqueue_at(&mut ledger, &gate, 0, &[1, 2, 3, 4, 5]);
    assert_eq!(producer.pump_from_ledger(&mut ledger, &gate, 16), Ok(true));
    let plans = ValidatedPlanMailbox::default();
    let mut cache = ValidatedPlanReader::default();
    let (mut tx, mut rx) = channel::<ValidatedObservation>(1).unwrap();
    let mut output = [-1];
    let mut turn = |device: &mut TapeDevice, tx: &mut _, latency_ns: Option<u64>| {
        let presented = latency_ns.map(|latency| at(0) + Duration::from_nanos(latency));
        let result = device.render_validated_feedback(
            &mut output,
            at(0),
            presented,
            0,
            &plans,
            &mut cache,
            tx,
        );
        (result.unwrap(), output)
    };
    assert_eq!(
        turn(&mut device, &mut tx, Some(10_000_000)),
        ((0, true), [1])
    );
    assert_eq!(
        turn(&mut device, &mut tx, Some(2_000_000)),
        ((0, false), [2])
    );
    assert_eq!(rx.receive().unwrap().latency_floor_ns, Some(10_000_000));
    // The best measured latency was dropped on the way, but the device keeps it;
    // fallback reports the floor without inventing a measurement.
    assert_eq!(turn(&mut device, &mut tx, None), ((0, true), [3]));
    let fallback = rx.receive().unwrap();
    assert!(fallback.input.presentation.is_none());
    assert_eq!(fallback.latency_floor_ns, Some(2_000_000));
    assert_eq!(ledger.try_reanchor(&gate, 3_000), Ok(()));
    assert_eq!(producer.pump_from_ledger(&mut ledger, &gate, 16), Ok(true));
    assert_eq!(turn(&mut device, &mut tx, None), ((0, true), [4]));
    assert_eq!(rx.receive().unwrap().latency_floor_ns, Some(2_000_000));
    assert_eq!(
        ledger.try_clear(&gate),
        Ok(RendererOperationOutcome::Applied)
    );
    enqueue_at(&mut ledger, &gate, 0, &[9]);
    assert_eq!(producer.pump_from_ledger(&mut ledger, &gate, 16), Ok(true));
    assert_eq!(turn(&mut device, &mut tx, None), ((0, true), [9]));
    assert_eq!(rx.receive().unwrap().latency_floor_ns, None);
}

#[test]
fn an_unknown_timeline_keeps_or_resets_the_schedule() {
    let steady = CorrectionSchedule::default();
    let actual = drop_every(500);
    assert_eq!(plan_to_follow(None, true, actual), Some(actual));
    assert_eq!(plan_to_follow(None, false, actual), Some(steady));
    assert_eq!(plan_to_follow(Some(None), true, actual), None);
    assert_eq!(
        plan_to_follow(Some(Some(insert_every(9))), true, actual),
        Some(insert_every(9))
    );
    assert_eq!(plan_to_follow(Some(Some(reanchor())), true, actual), None);
}

#[test]
fn the_last_report_number_stays() {
    let (_producer, mut device) = mono(1);
    device.feedback_serial = u64::MAX;
    let (mut tx, mut rx) = channel::<Observation>(1).unwrap();
    let mut output = [5];
    assert_eq!(
        device.render_feedback(&mut output, None, &PlanMailbox::default(), &mut tx),
        Some((1, false)),
        "nothing was played, and nothing is reported"
    );
    assert_eq!(output, [0]);
    assert_eq!(device.feedback_serial, u64::MAX);
    assert!(rx.receive().is_none());
}

#[test]
fn preparing_a_tape_moves_the_output_on() {
    let mut preparation = Preparation::new(vec![(1, source_pcm(&[1, 2, 3]))]).unwrap();
    prepare_tape(&mut preparation, 0, 0, 2);
    assert_eq!((preparation.output_frames, preparation.last[0]), (2, 2));
    let tape = prepare_tape(&mut preparation, 0, 2, 4);
    assert_eq!(tape.valid, 1);
    assert_eq!((preparation.output_frames, preparation.last[0]), (6, 3));
    prepare_tape(&mut preparation, 0, 3, 1);
    assert_eq!((preparation.output_frames, preparation.last[0]), (7, 3));
}

#[test]
fn a_presentation_before_its_capture_is_no_measurement() {
    let ns = Duration::from_nanos;
    assert_eq!(measured_from(at(0), None), None);
    assert_eq!(measured_from(at(0), Some(at(0))), Some(0));
    assert_eq!(measured_from(at(0), Some(at(1) + ns(5))), Some(1_005));
    assert_eq!(measured_from(at(0), Some(at(0) - ns(1))), None);
    let (mut producer, mut device) = mono(1);
    let mut source = Preparation::new(vec![(1, source_pcm(&[1, 2]))]).unwrap();
    assert!(producer.publish(prepare_tape(&mut source, 0, 0, 2)).is_ok());
    let plans = ValidatedPlanMailbox::default();
    let mut reader = ValidatedPlanReader::default();
    let (mut tx, mut rx) = channel::<ValidatedObservation>(1).unwrap();
    let mut output = [0];
    assert_eq!(
        device.render_validated_feedback(
            &mut output,
            at(10),
            Some(at(9)),
            10,
            &plans,
            &mut reader,
            &mut tx
        ),
        Some((0, true))
    );
    let report = rx.receive().unwrap();
    assert_eq!(report.input.presentation, None);
    assert_eq!(report.latency_floor_ns, None);
}
