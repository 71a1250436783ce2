use sendspin::audio::sync_correction::CorrectionSchedule;
use sendspin::audio::synced_player::handoff_probe::admission::SourceLedger;
use sendspin::audio::synced_player::handoff_probe::bounded::{pipe_for, CreditSide};
use sendspin::audio::synced_player::handoff_probe::timeline::{Preparation, Span, SpanDevice};
use sendspin::audio::{
    AudioBuffer, AudioFormat, Codec, EnqueueOutcome, RendererOperationOutcome,
};
use std::sync::atomic::Ordering;
use std::sync::Arc;

fn source_pcm(samples: &[i32]) -> AudioBuffer {
    AudioBuffer {
        timestamp: 0,
        samples: Arc::from(samples),
        format: AudioFormat {
            codec: Codec::Pcm,
            sample_rate: 1_000,
            channels: 1,
            bit_depth: 24,
            codec_header: None,
        },
    }
}

fn pipe(limit: usize) -> (CreditSide<Span>, SpanDevice) {
    let (prepare, lane) = pipe_for::<Span>(limit).unwrap();
    (prepare, SpanDevice::new(lane))
}

/// The plan for an error of so many microseconds either way.
fn plan(error: i64) -> CorrectionSchedule {
    if error > 0 {
        CorrectionSchedule {
            drop_every_n_frames: 500,
            ..CorrectionSchedule::default()
        }
    } else {
        CorrectionSchedule {
            insert_every_n_frames: 500,
            ..CorrectionSchedule::default()
        }
    }
}

fn sources(channels: u8) -> Vec<(u64, AudioBuffer)> {
    let samples: [Vec<i32>; 2] = if channels == 1 {
        [vec![10, 20], vec![30, 40]]
    } else {
        [vec![10, 110, 20, 120], vec![30, 130, 40, 140]]
    };
    samples
        .into_iter()
        .enumerate()
        .map(|(i, samples)| {
            let mut source = source_pcm(&samples);
            source.timestamp = i as i64 * 2_000;
            source.format.channels = channels.into();
            ((i + 1) as u64, source)
        })
        .collect()
}

#[test]
fn realtime_handoff_probe_timeline_correction_crosses_source_boundary_in_mono_and_stereo() {
    for channels in [1, 2] {
        let mut preparation = Preparation::new(sources(channels)).unwrap();
        let span = preparation.prepare(0, &[1, 2, 1]);
        let (mut producer, mut device) = pipe(1);
        assert!(producer.publish(span).is_ok());
        let mut prefix = vec![0; usize::from(channels)];
        assert_eq!(device.render_span(&mut prefix, channels.into()), Some(0));
        assert_eq!(
            prefix,
            if channels == 1 {
                vec![10]
            } else {
                vec![10, 110]
            }
        );
        assert_eq!(device.progress.load(Ordering::Acquire), 1);
        let mut rest = vec![0; usize::from(channels) * 2];
        assert_eq!(device.render_span(&mut rest, channels.into()), Some(0));
        assert_eq!(
            rest,
            if channels == 1 {
                vec![30, 40]
            } else {
                vec![30, 130, 40, 140]
            }
        );
        assert_eq!(device.progress.load(Ordering::Acquire), 4);
        assert_eq!(device.gate.view().current(), 0);
        assert_eq!(producer.reclaim(), 1);
    }
}

#[test]
fn realtime_handoff_probe_timeline_replacement_replans_cross_source_frame_without_losing_current() {
    let mut old = Preparation::new(sources(1)).unwrap();
    let old_span = old.prepare(0, &[1, 2, 1]);
    let (mut producer, mut device) = pipe(2);
    assert!(producer.publish(old_span).is_ok());
    assert_eq!(device.render_span(&mut [0], 1), Some(0));
    assert!(device.gate.replace(device.gate.observe().unwrap()).is_ok());
    let mut stale = [99; 2];
    assert_eq!(device.render_span(&mut stale, 1), Some(2));
    assert_eq!(stale, [0, 0]);
    assert_eq!(device.progress.load(Ordering::Acquire), 1);
    // Rebuild the private view at what was actually consumed, and replace what is
    // pending there. The rest of the current source stays.
    let mut fresh = Preparation::new(sources(1)).unwrap();
    fresh.prepare(0, &[1]);
    let mut replacement = source_pcm(&[50, 60]);
    replacement.timestamp = 2_000;
    fresh.push(3, replacement);
    let new_span = fresh.prepare(device.gate.view().epoch(), &[2, 1]);
    assert!(producer.publish(new_span).is_ok());
    let mut output = [0; 2];
    assert_eq!(device.render_span(&mut output, 1), Some(0));
    assert_eq!(output, [50, 60]);
    assert_eq!(device.progress.load(Ordering::Acquire), 4);
    assert_eq!(producer.reclaim(), 2);
}

#[test]
fn realtime_handoff_probe_timeline_repeat_between_sources_does_not_consume_next_source() {
    let mut preparation = Preparation::new(sources(1)).unwrap();
    let span = preparation.prepare(0, &[1, 1, 0, 1, 1]);
    let (mut producer, mut device) = pipe(1);
    assert!(producer.publish(span).is_ok());
    let mut prefix = [0; 3];
    assert_eq!(device.render_span(&mut prefix, 1), Some(0));
    assert_eq!(prefix, [10, 20, 20]);
    assert_eq!(device.progress.load(Ordering::Acquire), 2);
    let mut suffix = [0; 2];
    assert_eq!(device.render_span(&mut suffix, 1), Some(0));
    assert_eq!(suffix, [30, 40]);
    assert_eq!(device.progress.load(Ordering::Acquire), 4);
    assert_eq!(producer.reclaim(), 1);
}

#[test]
fn realtime_handoff_probe_timeline_window_bound_splits_preparation_without_losing_source_progress()
{
    let mut preparation = Preparation::with_window_frames(sources(2), 2).unwrap();
    let first = preparation.prepare(0, &[1, 2, 1]);
    assert_eq!(first.frames.len(), 2);
    assert_eq!(&*first.pcm, [10, 110, 30, 130]);
    let second = preparation.prepare(0, &[1]);
    let (mut producer, mut device) = pipe(2);
    assert!(producer.publish(first).is_ok());
    assert!(producer.publish(second).is_ok());
    let mut output = [0; 8];
    assert_eq!(device.render_span(&mut output, 2), Some(1));
    assert_eq!(output, [10, 110, 30, 130, 40, 140, 0, 0]);
    assert_eq!(device.progress.load(Ordering::Acquire), 4);
    assert_eq!(producer.reclaim(), 2);
}

#[test]
fn realtime_handoff_probe_timeline_source_identity_does_not_retain_consumed_pcm() {
    let source = source_pcm(&[10, 20]);
    let released = Arc::downgrade(&source.samples);
    let mut preparation = Preparation::new(vec![(1, source)]).unwrap();
    let span = preparation.prepare(0, &[1, 1]);
    assert!(
        released.upgrade().is_none(),
        "private preparation no longer needs the source allocation"
    );
    assert_eq!(&*span.pcm, [10, 20]);
}

#[test]
fn realtime_handoff_probe_timeline_real_schedule_preserves_cadence_across_windows() {
    for error in [10_000, -10_000] {
        let samples: Vec<i32> = (1..=503).collect();
        let mut preparation =
            Preparation::with_window_frames(vec![(1, source_pcm(&samples))], 128).unwrap();
        let schedule = plan(error);
        let (mut producer, mut device) = pipe(4);
        let mut remaining = 501;
        while remaining > 0 {
            let span = preparation.prepare_scheduled(0, remaining, schedule, true);
            remaining -= span.frames.len();
            assert!(producer.publish(span).is_ok());
        }
        let mut output = [0; 501];
        assert_eq!(device.render_span(&mut output[..129], 1), Some(0));
        assert_eq!(device.render_span(&mut output[129..257], 1), Some(0));
        assert_eq!(device.render_span(&mut output[257..], 1), Some(0));
        assert_eq!(&output[..499], &(1..=499).collect::<Vec<i32>>());
        if error > 0 {
            assert_eq!(&output[499..], [501, 502]);
            assert_eq!(device.progress.load(Ordering::Acquire), 502);
        } else {
            assert_eq!(&output[499..], [499, 500]);
            assert_eq!(device.progress.load(Ordering::Acquire), 500);
        }
        assert_eq!(producer.reclaim(), 4);
    }
}

#[test]
fn realtime_handoff_probe_timeline_source_identity_distinguishes_reused_sample_allocation() {
    let first = source_pcm(&[10, 20]);
    let second = AudioBuffer {
        timestamp: 2_000,
        samples: Arc::clone(&first.samples),
        format: first.format.clone(),
    };
    let resumed = AudioBuffer {
        timestamp: second.timestamp,
        samples: Arc::clone(&second.samples),
        format: second.format.clone(),
    };
    let mut preparation = Preparation::new(vec![(1, first), (2, second)]).unwrap();
    let span = preparation.prepare(0, &[1, 1, 1]);
    let (mut producer, mut device) = pipe(1);
    assert!(producer.publish(span).is_ok());
    let mut prefix = [0; 3];
    assert_eq!(device.render_span(&mut prefix, 1), Some(0));
    assert_eq!(prefix, [10, 20, 10]);
    assert_eq!(producer.reclaim(), 1);
    // A renewed view retains the second source's identity despite shared PCM.
    let mut fresh = Preparation::new(vec![(2, resumed)]).unwrap();
    fresh.prepare(0, &[1]);
    assert!(producer.publish(fresh.prepare(0, &[1])).is_ok());
    let mut suffix = [0];
    assert_eq!(device.render_span(&mut suffix, 1), Some(0));
    assert_eq!(suffix, [20]);
    assert_eq!(device.progress.load(Ordering::Acquire), 4);
    assert_eq!(producer.reclaim(), 1);
}

#[test]
fn realtime_handoff_probe_timeline_real_schedule_pauses_cadence_without_measured_timestamp() {
    for error in [10_000, -10_000] {
        let samples: Vec<i32> = (1..=503).collect();
        let mut preparation =
            Preparation::with_window_frames(vec![(1, source_pcm(&samples))], 512).unwrap();
        let schedule = plan(error);
        let (mut producer, mut device) = pipe(3);
        for (count, measured) in [(499, true), (1, false), (1, true)] {
            assert!(producer
                .publish(preparation.prepare_scheduled(0, count, schedule, measured))
                .is_ok());
        }
        let mut output = [0; 501];
        assert_eq!(device.render_span(&mut output, 1), Some(0));
        assert_eq!(&output[..500], &(1..=500).collect::<Vec<i32>>());
        if error > 0 {
            assert_eq!(output[500], 502);
            assert_eq!(device.progress.load(Ordering::Acquire), 502);
        } else {
            assert_eq!(output[500], 500);
            assert_eq!(device.progress.load(Ordering::Acquire), 500);
        }
        assert_eq!(producer.reclaim(), 3);
    }
}

#[test]
fn realtime_handoff_probe_timeline_clear_reconciles_admission_and_reclaims_off_device() {
    let (mut producer, mut device) = pipe(2);
    let gate = Arc::clone(&device.gate);
    let mut ledger = SourceLedger::new(Arc::clone(&device.progress)).unwrap();
    let input = sources(1);
    for (_, source) in &input {
        let copied = AudioBuffer {
            timestamp: source.timestamp,
            samples: Arc::clone(&source.samples),
            format: source.format.clone(),
        };
        assert!(matches!(
            ledger.try_enqueue(copied, &gate, || {}),
            Ok(EnqueueOutcome::Accepted { .. })
        ));
    }
    let mut preparation = Preparation::new(input).unwrap();
    let witness = Arc::new(());
    let mut span = preparation.prepare(gate.view().epoch(), &[1, 2, 1]);
    span.lifetime = Some(Arc::clone(&witness));
    assert!(producer.publish(span).is_ok());
    let mut prefix = [0];
    let missing_prefix = device.render_span(&mut prefix, 1);
    let clear = ledger.try_clear(&gate);
    let empty = ledger
        .owner
        .capacity(ledger.scope)
        .unwrap()
        .current_frames();
    let new_source = source_pcm(&[50, 60]);
    let accepted = ledger.try_enqueue(source_pcm(&[50, 60]), &gate, || {});
    let mut fresh = Preparation::new(vec![(3, new_source)]).unwrap();
    let mut next = fresh.prepare(gate.view().epoch(), &[1, 1]);
    next.lifetime = Some(Arc::clone(&witness));
    let published = producer.publish(next).is_ok();
    let mut output = [0; 3];
    let missing = device.render_span(&mut output, 1);
    assert_eq!((prefix, missing_prefix), ([10], Some(0)));
    assert_eq!(clear, Ok(RendererOperationOutcome::Applied));
    assert_eq!(empty, 0);
    assert!(matches!(
        accepted,
        Ok(EnqueueOutcome::Accepted {
            queued_frames: 2,
            queued_buffers: 1
        })
    ));
    assert!(published);
    assert_eq!((output, missing), ([50, 60, 0], Some(1)));
    assert_eq!(Arc::strong_count(&witness), 3, "collector has not run");
    ledger.reconcile();
    assert_eq!(ledger.owner.consumed_frames(ledger.scope), Ok(3));
    assert_eq!(
        ledger
            .owner
            .capacity(ledger.scope)
            .unwrap()
            .current_frames(),
        0
    );
    // What was given back is freed here, not by the device.
    assert_eq!(producer.reclaim(), 2);
    assert_eq!(Arc::strong_count(&witness), 1);
}

#[test]
fn realtime_handoff_probe_final_pcm_cannot_defer_actual_fallback_decision() {
    for error in [10_000, -10_000] {
        let samples: Vec<i32> = (1..=503).collect();
        let mut preparation =
            Preparation::with_window_frames(vec![(1, source_pcm(&samples))], 512).unwrap();
        let schedule = plan(error);
        let (mut producer, mut device) = pipe(2);
        assert!(producer
            .publish(preparation.prepare_scheduled(0, 499, schedule, true))
            .is_ok());
        // These final samples are computed before the future callback supplies
        // its actual timestamp. The copier has no remaining branch to select.
        assert!(producer
            .publish(preparation.prepare_scheduled(0, 1, schedule, true))
            .is_ok());
        let mut prefix = [0; 499];
        assert_eq!(device.render_span(&mut prefix, 1), Some(0));
        assert_eq!(prefix, std::array::from_fn(|i| i as i32 + 1));
        assert_eq!(device.progress.load(Ordering::Acquire), 499);
        let mut future_fallback_output = [0];
        assert_eq!(device.render_span(&mut future_fallback_output, 1), Some(0));
        let source_delta = device.progress.load(Ordering::Acquire) - 499;
        // A fallback would output source frame 500, consume one, and keep the
        // correction counter for a later measured callback.
        let required_fallback = ([500], 1);
        assert_eq!(
            (future_fallback_output, source_delta),
            if error > 0 { ([501], 2) } else { ([499], 0) }
        );
        assert_ne!(
            (future_fallback_output, source_delta),
            required_fallback,
            "a fixed corrected path cannot honor the later fallback branch"
        );
        assert_eq!(producer.reclaim(), 2);
    }
}

#[test]
fn sources_that_cannot_be_prepared_together_are_refused() {
    let mut odd = source_pcm(&[1, 2, 3]);
    odd.format.channels = 2;
    assert!(Preparation::new(vec![(1, source_pcm(&[1])), (2, odd)]).is_none());
    assert!(Preparation::new(vec![(0, source_pcm(&[1]))]).is_none());
    let mut slow = source_pcm(&[1]);
    slow.format.sample_rate = 0;
    assert!(Preparation::new(vec![(1, slow)]).is_none());
    assert!(Preparation::with_window_frames(vec![(1, source_pcm(&[1]))], 0).is_none());
}
