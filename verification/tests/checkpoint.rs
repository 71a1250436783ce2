use sendspin::audio::sync_correction::CorrectionSchedule;
use sendspin::audio::synced_player::handoff_probe::admission::SourceLedger;
use sendspin::audio::synced_player::handoff_probe::bounded::{pipe_for, CreditSide};
use sendspin::audio::synced_player::handoff_probe::timeline::checkpoint::{
    decode_cadence, encode_cadence, pack_pair, unpack_pair, Cadence, PublishedCheckpoint,
};
use sendspin::audio::synced_player::handoff_probe::timeline::{Preparation, Span, SpanDevice};
use sendspin::audio::synced_player::ingress::checkpoint::SourcePosition;
use sendspin::audio::synced_player::ingress::ControlGate;
use sendspin::audio::{
    AudioBuffer, AudioFormat, Codec, EnqueueOutcome, RendererOperationOutcome,
};
use std::sync::atomic::AtomicU64;
use std::sync::Arc;

fn source_pcm(samples: &[i32]) -> AudioBuffer {
    AudioBuffer {
        timestamp: 0,
        samples: Arc::from(samples),
        format: AudioFormat {
            codec: Codec::Pcm,
            sample_rate: 1_000,
            channels: 1,
            bit_depth: 24,
            codec_header: None,
        },
    }
}

fn pipe(limit: usize) -> (CreditSide<Span>, SpanDevice) {
    let (prepare, lane) = pipe_for::<Span>(limit).unwrap();
    (prepare, SpanDevice::new(lane))
}

fn insert_every(frames: u32) -> CorrectionSchedule {
    CorrectionSchedule {
        insert_every_n_frames: frames,
        ..CorrectionSchedule::default()
    }
}

fn queued(ledger: &SourceLedger) -> usize {
    ledger
        .owner
        .capacity(ledger.scope)
        .unwrap()
        .current_frames()
}

#[test]
fn realtime_handoff_probe_checkpoint_clear_invalidates_phase_without_resetting_consumption() {
    let publication = Arc::new(PublishedCheckpoint::new(1));
    let (mut producer, mut device) = pipe(2);
    let mut ledger = SourceLedger::new(Arc::clone(&device.progress)).unwrap();
    assert!(matches!(
        ledger.try_enqueue(source_pcm(&[10, 20, 30]), &device.gate, || {}),
        Ok(EnqueueOutcome::Accepted { .. })
    ));
    let schedule = insert_every(500);
    let mut old = Preparation::new(vec![(1, source_pcm(&[10, 20, 30]))]).unwrap();
    old.checkpoint = Some(Arc::clone(&publication));
    assert!(producer
        .publish(old.prepare_scheduled(0, 3, schedule, true))
        .is_ok());
    let mut prefix = [0; 2];
    assert_eq!(device.render_span(&mut prefix, 1), Some(0));
    assert_eq!(prefix, [10, 20]);
    assert_eq!(
        publication
            .read(&device.gate, &device.progress)
            .unwrap()
            .cadence
            .insert_counter,
        498
    );
    assert_eq!(
        ledger.try_clear_with(&device.gate, || publication.invalidate_after_clear()),
        Ok(RendererOperationOutcome::Applied)
    );
    assert!(publication.read(&device.gate, &device.progress).is_none());
    assert_eq!(ledger.owner.consumed_frames(ledger.scope), Ok(2));
    assert!(matches!(
        ledger.try_enqueue(source_pcm(&[50, 60]), &device.gate, || {}),
        Ok(EnqueueOutcome::Accepted { .. })
    ));
    let mut fresh = Preparation::new(vec![(2, source_pcm(&[50, 60]))]).unwrap();
    fresh.checkpoint = Some(Arc::clone(&publication));
    assert!(producer
        .publish(fresh.prepare_scheduled(device.gate.view().epoch(), 1, schedule, true))
        .is_ok());
    let mut output = [0];
    assert_eq!(device.render_span(&mut output, 1), Some(0));
    assert_eq!(output, [50]);
    let gate = Arc::clone(&device.gate);
    let actual = publication.read(&gate, &device.progress).unwrap();
    assert_eq!(actual.source_frames, 3);
    assert_eq!(actual.last, [50]);
    assert_eq!(actual.cadence.insert_counter, 499);
    ledger.reconcile();
    assert_eq!(ledger.owner.consumed_frames(ledger.scope), Ok(3));
    assert_eq!(producer.reclaim(), 2);
}

#[test]
fn realtime_handoff_probe_checkpoint_restores_insert_phase_from_actual_output() {
    for output_frames in [499, 500] {
        let samples: Vec<i32> = (1..=1_002).collect();
        let publication = Arc::new(PublishedCheckpoint::new(1));
        let mut preparation =
            Preparation::with_window_frames(vec![(1, source_pcm(&samples))], 512).unwrap();
        preparation.checkpoint = Some(Arc::clone(&publication));
        let schedule = insert_every(500);
        let span = preparation.prepare_scheduled(0, output_frames, schedule, true);
        // Speculation goes beyond the published window and must not become truth.
        let abandoned = preparation.prepare_scheduled(0, 20, schedule, true);
        let (mut producer, mut device) = pipe(1);
        assert!(producer.publish(span).is_ok());
        assert_eq!(device.render_span(&mut vec![0; output_frames], 1), Some(0));
        let observation_gate = Arc::clone(&device.gate);
        let actual = publication
            .read(&observation_gate, &device.progress)
            .unwrap();
        assert_eq!(actual.source_frames, 499);
        assert_eq!(actual.last, [499]);
        assert_eq!(producer.reclaim(), 1);
        drop(abandoned);

        // Restore the retained source view directly from the actual position.
        let mut restored =
            Preparation::with_window_frames(vec![(1, source_pcm(&samples))], 512).unwrap();
        assert!(restored.apply_actual(&actual));
        assert!(device.gate.replace(actual.view).is_ok());
        restored.checkpoint = Some(Arc::clone(&publication));
        let next = restored.prepare_scheduled(device.gate.view().epoch(), 2, schedule, true);
        assert!(producer.publish(next).is_ok());
        let mut output = [0; 2];
        assert_eq!(device.render_span(&mut output, 1), Some(0));
        assert_eq!(
            output,
            if output_frames == 499 {
                [499, 500]
            } else {
                [500, 501]
            }
        );
        assert_eq!(producer.reclaim(), 1);
    }
}

#[test]
fn realtime_handoff_probe_checkpoint_reanchor_reconciles_skipped_sources() {
    let sources = || {
        [
            (1, 0, vec![1, 2, 3, 4]),
            (2, 10_000, vec![10, 11, 12, 13]),
            (3, 20_000, vec![20, 21, 22, 23]),
        ]
        .into_iter()
        .map(|(id, timestamp, samples)| {
            let mut source = source_pcm(&samples);
            source.timestamp = timestamp;
            (id, source)
        })
        .collect()
    };
    let mut preparation = Preparation::new(sources()).unwrap();
    let mut retained = Preparation::new(sources()).unwrap();
    let publication = Arc::new(PublishedCheckpoint::new(1));
    preparation.checkpoint = Some(Arc::clone(&publication));
    let (mut producer, mut device) = pipe(2);
    let schedule = CorrectionSchedule::default();
    assert!(producer
        .publish(preparation.prepare_scheduled(0, 1, schedule, true))
        .is_ok());
    let mut first = [0];
    assert_eq!(device.render_span(&mut first, 1), Some(0));
    assert_eq!(first, [1]);
    retained.reconcile_position(
        publication
            .read(&device.gate, &device.progress)
            .unwrap()
            .position,
    );
    assert_eq!(retained.cursor.index, 1);
    assert_eq!(producer.reclaim(), 1);

    // A reanchor moves the cursor only; the current source survives it.
    preparation.cursor.cursor_us = 20_000;
    preparation.cursor.cursor_remainder = 0;
    assert!(producer
        .publish(preparation.prepare_scheduled(0, 4, schedule, true))
        .is_ok());
    let mut prefix = [0; 2];
    assert_eq!(device.render_span(&mut prefix, 1), Some(0));
    assert_eq!(prefix, [2, 3]);
    let gate = Arc::clone(&device.gate);
    let actual = publication.read(&gate, &device.progress).unwrap();
    assert_eq!(actual.source_frames, 3);
    retained.reconcile_position(actual.position);
    assert_eq!(retained.current(), 1);
    assert_eq!(retained.cursor.index, 3);
    assert_eq!(retained.cursor.cursor_us, 22_000);
    drop(actual);

    let mut suffix = [0; 2];
    assert_eq!(device.render_span(&mut suffix, 1), Some(0));
    assert_eq!(suffix, [4, 23]);
    let actual = publication.read(&gate, &device.progress).unwrap();
    assert_eq!(actual.source_frames, 5);
    assert_eq!(actual.position.retired_through, 3);
    retained.reconcile_position(actual.position);
    assert!(retained.cursor.current.is_none());
    assert!(retained.cursor.queue.is_empty());
    assert_eq!(retained.cursor.pending_frames, 0);
    assert_eq!(retained.cursor.cursor_us, 24_000);
    assert_eq!(producer.reclaim(), 1);
}

#[test]
fn realtime_handoff_probe_checkpoint_reanchor_releases_actual_admission_capacity() {
    let publication = Arc::new(PublishedCheckpoint::new(1));
    let (mut producer, mut device) = pipe(2);
    let mut ledger =
        SourceLedger::with_checkpoint(Arc::clone(&device.progress), Arc::clone(&publication))
            .unwrap();
    let source_at = |timestamp, samples: &[i32]| {
        let mut source = source_pcm(samples);
        source.timestamp = timestamp;
        source
    };
    for (timestamp, samples) in [
        (0, [1, 2, 3, 4]),
        (10_000, [10, 11, 12, 13]),
        (20_000, [20, 21, 22, 23]),
    ] {
        assert!(matches!(
            ledger.try_enqueue(source_at(timestamp, &samples), &device.gate, || {}),
            Ok(EnqueueOutcome::Accepted { .. })
        ));
    }
    let schedule = CorrectionSchedule::default();
    let (view, mut preparation) = ledger.preparation(&device.gate).unwrap();
    assert!(producer
        .publish(preparation.prepare_scheduled(view.epoch(), 1, schedule, true))
        .is_ok());
    let mut first = [0];
    assert_eq!(device.render_span(&mut first, 1), Some(0));
    assert_eq!(first, [1]);
    assert_eq!(producer.reclaim(), 1);
    // Rebuild from the ledger's actual checkpoint, never replay consumed frames.
    let (view, mut preparation) = ledger.preparation(&device.gate).unwrap();
    preparation.cursor.cursor_us = 20_000;
    preparation.cursor.cursor_remainder = 0;
    assert!(producer
        .publish(preparation.prepare_scheduled(view.epoch(), 4, schedule, true))
        .is_ok());
    let mut prefix = [0; 2];
    assert_eq!(device.render_span(&mut prefix, 1), Some(0));
    assert_eq!(prefix, [2, 3]);
    // Append while an already prepared window still has a valid suffix.
    assert_eq!(
        ledger
            .try_enqueue(source_at(24_000, &[100; 16]), &device.gate, || {})
            .ok(),
        Some(EnqueueOutcome::Accepted {
            queued_frames: 25,
            queued_buffers: 4
        })
    );
    let mut suffix = [0; 2];
    assert_eq!(device.render_span(&mut suffix, 1), Some(0));
    assert_eq!(suffix, [4, 23]);
    assert_eq!(producer.reclaim(), 1);
    // The skipped blocks must release capacity even though consumption is only 5.
    assert_eq!(
        ledger
            .try_enqueue(source_at(40_000, &[200; 16]), &device.gate, || {})
            .ok(),
        Some(EnqueueOutcome::Accepted {
            queued_frames: 32,
            queued_buffers: 2
        })
    );
    assert_eq!(ledger.owner.consumed_frames(ledger.scope), Ok(5));
    assert!(matches!(
        ledger.try_enqueue(source_at(56_000, &[300]), &device.gate, || {}),
        Ok(EnqueueOutcome::Full { .. })
    ));
    let (view, mut preparation) = ledger.preparation(&device.gate).unwrap();
    assert!(producer
        .publish(preparation.prepare_scheduled(view.epoch(), 2, schedule, true))
        .is_ok());
    let mut resumed = [0];
    assert_eq!(device.render_span(&mut resumed, 1), Some(0));
    assert_eq!(resumed, [100]);
    assert_eq!(
        ledger.try_clear(&device.gate),
        Ok(RendererOperationOutcome::Applied)
    );
    assert_eq!(ledger.owner.consumed_frames(ledger.scope), Ok(6));
    assert_eq!(queued(&ledger), 0);
    assert!(!publication.is_valid());
    assert_eq!(
        ledger
            .try_enqueue(source_at(0, &[9, 8]), &device.gate, || {})
            .ok(),
        Some(EnqueueOutcome::Accepted {
            queued_frames: 2,
            queued_buffers: 1
        })
    );
    let (view, mut preparation) = ledger.preparation(&device.gate).unwrap();
    assert!(producer
        .publish(preparation.prepare_scheduled(view.epoch(), 2, schedule, true))
        .is_ok());
    let mut fresh = [0; 2];
    assert_eq!(device.render_span(&mut fresh, 1), Some(0));
    assert_eq!(fresh, [9, 8]);
    assert!(ledger.try_reconcile(&device.gate).is_ok());
    assert_eq!(ledger.owner.consumed_frames(ledger.scope), Ok(8));
    assert_eq!(queued(&ledger), 0);
    assert_eq!(producer.reclaim(), 2);
}

#[test]
fn realtime_handoff_probe_checkpoint_overlap_rebuild_retains_only_unplayed_output() {
    for old_window_frames in [3, 8] {
        for advance_before_publish in [0, 2] {
            let publication = Arc::new(PublishedCheckpoint::new(1));
            let (mut producer, mut device) = pipe(2);
            let mut ledger =
                SourceLedger::with_checkpoint(Arc::clone(&device.progress), publication).unwrap();
            assert!(matches!(
                ledger.try_enqueue(source_pcm(&[1, 2, 3, 4]), &device.gate, || {}),
                Ok(EnqueueOutcome::Accepted { .. })
            ));
            let mut pending = source_pcm(&[10, 11, 12, 13]);
            pending.timestamp = 4_000;
            assert!(matches!(
                ledger.try_enqueue(pending, &device.gate, || {}),
                Ok(EnqueueOutcome::Accepted { .. })
            ));
            let schedule = CorrectionSchedule::default();
            let (view, mut old) = ledger.preparation(&device.gate).unwrap();
            assert!(producer
                .publish(old.prepare_scheduled(view.epoch(), old_window_frames, schedule, true))
                .is_ok());
            let mut prefix = [0];
            assert_eq!(device.render_span(&mut prefix, 1), Some(0));
            assert_eq!(prefix, [1]);
            let mut replacement = source_pcm(&[50, 51, 52, 53]);
            replacement.timestamp = 4_000;
            assert_eq!(
                ledger.try_enqueue(replacement, &device.gate, || {}).ok(),
                Some(EnqueueOutcome::Accepted {
                    queued_frames: 7,
                    queued_buffers: 2
                })
            );
            // Prepare before the device drains the preserved current. That current is
            // represented in both windows; it must be output once, not lose the suffix.
            let (view, mut fresh) = ledger.preparation(&device.gate).unwrap();
            let rebuilt = fresh.prepare_scheduled(view.epoch(), 7, schedule, true);
            let mut rest = [0; 7];
            // The device may advance while the worker is holding the unpublished view.
            assert_eq!(
                device.render_span(&mut rest[..advance_before_publish], 1),
                Some(0)
            );
            assert!(producer.publish(rebuilt).is_ok());
            let missing = device.render_span(&mut rest[advance_before_publish..], 1);
            assert_eq!(rest, [2, 3, 4, 50, 51, 52, 53]);
            assert_eq!(missing, Some(0));
            assert!(ledger.try_reconcile(&device.gate).is_ok());
            assert_eq!(ledger.owner.consumed_frames(ledger.scope), Ok(8));
            assert_eq!(queued(&ledger), 0);
            assert_eq!(producer.reclaim(), 2);
        }
    }
}

#[test]
fn a_publication_comes_back() {
    let gate = ControlGate::default();
    let progress = AtomicU64::new(0);
    let publication = PublishedCheckpoint::new(2);
    assert!(!publication.is_valid());
    assert!(publication.read(&gate, &progress).is_none());
    let cadence = Cadence {
        schedule: insert_every(7),
        insert_counter: 3,
        drop_counter: 0,
    };
    let position = SourcePosition {
        current: 0,
        index: 4,
        cursor_us: -5,
        cursor_remainder: 6,
        retired_through: 8,
    };
    publication.publish(cadence, position, 11, Some(&[1, -2]));
    publication.publish(cadence, position, 2, None);
    assert!(publication.is_valid());
    assert_eq!(publication.output_frames(), 13);
    assert_eq!(publication.source_index(), 4);
    let actual = publication.read(&gate, &progress).unwrap();
    assert_eq!(actual.cadence, cadence);
    assert_eq!(actual.position, position);
    assert_eq!(actual.output_frames, 13);
    assert_eq!(actual.last, [1, -2]);
    publication.invalidate_for_reanchor();
    assert!(!publication.is_valid());
    assert_eq!(publication.output_frames(), 13);
    publication.invalidate_after_clear();
    assert_eq!(publication.output_frames(), 0);
    assert_eq!(publication.source_index(), 0);
}

#[test]
fn a_callback_keeps_readers_away() {
    let gate = ControlGate::default();
    let progress = AtomicU64::new(0);
    let publication = PublishedCheckpoint::new(1);
    let cadence = Cadence {
        schedule: CorrectionSchedule::default(),
        insert_counter: 0,
        drop_counter: 0,
    };
    let position = SourcePosition {
        current: 0,
        index: 0,
        cursor_us: 0,
        cursor_remainder: 0,
        retired_through: 0,
    };
    publication.publish(cadence, position, 1, Some(&[5]));
    let observed = gate.observe().unwrap();
    let callback = gate.begin_callback().unwrap();
    assert!(publication.read(&gate, &progress).is_none());
    assert!(publication.read_observed(observed, &progress).is_none());
    drop(callback);
    assert!(publication.read(&gate, &progress).is_some());
}

#[test]
fn cadences_travel_in_two_words() {
    assert_eq!(pack_pair(1, 2), 0x1_0000_0002);
    assert_eq!(unpack_pair(0xffff_ffff_0000_0003), (u32::MAX, 3));
    let cadence = Cadence {
        schedule: CorrectionSchedule {
            insert_every_n_frames: 500,
            drop_every_n_frames: 0,
            reanchor: false,
        },
        insert_counter: 17,
        drop_counter: u32::MAX,
    };
    let (schedule, counters) = encode_cadence(cadence);
    assert_eq!(schedule, 500 << 32);
    assert_eq!(counters, 17 << 32 | 0xffff_ffff);
    assert_eq!(decode_cadence(schedule, counters), cadence);
}

#[test]
fn publications_add_up_and_keep_what_they_do_not_say() {
    let gate = ControlGate::default();
    let progress = AtomicU64::new(17);
    let checkpoint = PublishedCheckpoint::new(2);
    let position = SourcePosition {
        retired_through: 3,
        current: 0,
        index: 4,
        cursor_us: 5,
        cursor_remainder: 6,
    };
    let cadence = |drop_counter| Cadence {
        schedule: insert_every(u32::MAX),
        insert_counter: 8,
        drop_counter,
    };
    assert!(checkpoint.read(&gate, &progress).is_none());
    assert!(gate.observe().is_some(), "a failed read is in nobody's way");
    checkpoint.publish(cadence(1), position, 10, Some(&[21, 22]));
    checkpoint.publish(cadence(2), position, 5, None);
    let read = checkpoint.read(&gate, &progress).unwrap();
    assert_eq!(read.last, [21, 22], "the last frame is kept");
    assert_eq!((read.output_frames, read.source_frames), (15, 17));
    assert_eq!(read.cadence, cadence(2));
    assert_eq!(read.position, position);
    drop(read);
    checkpoint.invalidate_for_reanchor();
    assert!(checkpoint.read(&gate, &progress).is_none());
    assert_eq!((checkpoint.output_frames(), checkpoint.source_index()), (15, 4));
    checkpoint.publish(cadence(3), position, 1, None);
    let read = checkpoint.read(&gate, &progress).unwrap();
    assert_eq!((read.output_frames, read.last.as_slice()), (16, &[21, 22][..]));
    drop(read);
    for _ in 0..2 {
        checkpoint.invalidate_after_clear();
        assert!(!checkpoint.is_valid());
        assert_eq!((checkpoint.output_frames(), checkpoint.source_index()), (0, 0));
    }
    checkpoint.publish(cadence(4), position, 2, None);
    let read = checkpoint.read(&gate, &progress).unwrap();
    assert_eq!((read.output_frames, read.last.as_slice()), (2, &[0, 0][..]));
}
