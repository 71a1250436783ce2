use sendspin::audio::synced_player::handoff_probe::admission::SourceLedger;
use sendspin::audio::synced_player::handoff_probe::bounded::{
    pipe_for, CreditSide, PreparedSource, SourceDevice,
};
use sendspin::audio::synced_player::handoff_probe::terminal::ScopedConsumption;
use sendspin::audio::sync_correction::CorrectionSchedule;
use sendspin::audio::synced_player::handoff_probe::timeline::checkpoint::{
    Cadence, PublishedCheckpoint,
};
use sendspin::audio::synced_player::ingress::checkpoint::SourcePosition;
use sendspin::audio::synced_player::ingress::ControlGate;
use sendspin::audio::synced_player::source::Pace;
use sendspin::audio::{
    AudioBuffer, AudioFormat, Codec, EnqueueOutcome, RendererOperationOutcome, TerminalOutcome,
};
use std::sync::atomic::{AtomicU64, Ordering};
use std::sync::Arc;

fn source_pcm(samples: &[i32]) -> AudioBuffer {
    AudioBuffer {
        timestamp: 0,
        samples: Arc::from(samples),
        format: AudioFormat {
            codec: Codec::Pcm,
            sample_rate: 1_000,
            channels: 1,
            bit_depth: 24,
            codec_header: None,
        },
    }
}

fn pipe(limit: usize) -> (CreditSide<PreparedSource>, SourceDevice) {
    let (prepare, lane) = pipe_for::<PreparedSource>(limit).unwrap();
    (prepare, SourceDevice::new(lane))
}

fn queued(ledger: &SourceLedger) -> usize {
    ledger
        .owner
        .capacity(ledger.scope)
        .unwrap()
        .current_frames()
}

#[test]
fn realtime_handoff_probe_admission_clear_preserves_consumption_and_reopens_empty_queue() {
    let (mut prepare, mut device) = pipe(3);
    let mut ledger = SourceLedger::new(Arc::clone(&device.progress)).unwrap();
    let first = source_pcm(&[1, 2, 3, 4]);
    let mut pending = source_pcm(&[11, 12, 13, 14]);
    pending.timestamp = 4_000;
    assert!(prepare
        .publish(PreparedSource::prepare(&first, 1, 0, &[1; 4]))
        .is_ok());
    assert!(prepare
        .publish(PreparedSource::prepare(&pending, 2, 0, &[1; 4]))
        .is_ok());
    ledger.enqueue(first);
    ledger.enqueue(pending);
    let gate = Arc::clone(&device.gate);
    let callback = gate.begin_callback().unwrap();
    let mut prefix = [0];
    assert_eq!(device.render_active(&callback, &mut prefix), 0);
    assert_eq!(prefix, [1]);
    assert_eq!(ledger.try_clear(&device.gate), Err(()));
    drop(callback);
    assert_eq!(
        ledger.try_clear(&device.gate),
        Ok(RendererOperationOutcome::Applied)
    );
    assert_eq!(queued(&ledger), 0);
    assert_eq!(ledger.owner.consumed_frames(ledger.scope).unwrap(), 1);
    // Clear need not wait for another device read to expose its empty queue.
    let replacement = source_pcm(&[30, 31]);
    let prepared = PreparedSource::prepare(&replacement, 3, device.gate.view().epoch(), &[1; 2]);
    assert_eq!(
        ledger.try_enqueue(replacement, &device.gate, || {}).ok(),
        Some(EnqueueOutcome::Accepted {
            queued_frames: 2,
            queued_buffers: 1,
        })
    );
    assert!(prepare.publish(prepared).is_ok());
    let mut output = [0; 3];
    assert_eq!(device.render(&mut output), Some(1));
    assert_eq!(output, [30, 31, 0]);
    ledger.reconcile();
    assert_eq!(ledger.owner.consumed_frames(ledger.scope).unwrap(), 3);
    assert_eq!(queued(&ledger), 0);
    assert_eq!(prepare.reclaim(), 3);
}

#[test]
fn realtime_handoff_probe_admission_append_keeps_unclaimed_prepared_prefix() {
    let (mut prepare, mut device) = pipe(1);
    let mut ledger = SourceLedger::new(Arc::clone(&device.progress)).unwrap();
    ledger.enqueue(source_pcm(&[1, 2]));
    assert!(prepare
        .publish(PreparedSource::prepare(&source_pcm(&[1, 2]), 1, 0, &[1; 2]))
        .is_ok());
    let mut suffix = source_pcm(&[3, 4]);
    suffix.timestamp = 2_000;
    assert_eq!(
        ledger.try_enqueue(suffix, &device.gate, || {}).ok(),
        Some(EnqueueOutcome::Accepted {
            queued_frames: 4,
            queued_buffers: 2,
        })
    );
    let mut output = [0; 2];
    assert_eq!(device.render(&mut output), Some(0));
    assert_eq!(output, [1, 2]);
    assert_eq!(prepare.reclaim(), 1);
    ledger.reconcile();
    assert_eq!(queued(&ledger), 2);
}

#[test]
fn realtime_handoff_probe_admission_retries_obsolete_full_after_partial_callback() {
    let (mut prepare, mut device) = pipe(1);
    let mut ledger = SourceLedger::new(Arc::clone(&device.progress)).unwrap();
    ledger.enqueue(source_pcm(&[10; 16]));
    let mut pending = source_pcm(&[20; 16]);
    pending.timestamp = 16_000;
    ledger.enqueue(pending);
    assert!(prepare
        .publish(PreparedSource::prepare(
            &source_pcm(&[10; 16]),
            1,
            0,
            &[1; 16]
        ))
        .is_ok());
    assert_eq!(device.render(&mut [0]), Some(0));
    let mut incoming = source_pcm(&[30; 8]);
    incoming.timestamp = 32_000;
    let gate = Arc::clone(&device.gate);
    let retry = ledger.try_enqueue(incoming, &gate, || {
        assert_eq!(device.render(&mut [0; 8]), Some(0));
    });
    assert!(retry.is_err(), "obsolete Full is an internal retry");
    let outcome = ledger.try_enqueue(retry.unwrap_err(), &gate, || {});
    assert_eq!(
        outcome.ok().expect("stable admission commits"),
        EnqueueOutcome::Accepted {
            queued_frames: 31,
            queued_buffers: 3,
        }
    );
    let epoch = gate.view().epoch();
    let mut excessive = source_pcm(&[40; 2]);
    excessive.timestamp = 40_000;
    assert_eq!(
        ledger
            .try_enqueue(excessive, &gate, || {})
            .ok()
            .expect("stable rejection commits"),
        EnqueueOutcome::Full {
            queued_frames: 31,
            queued_buffers: 3,
        }
    );
    assert_eq!(gate.view().epoch(), epoch, "Full does not revoke output");
    let mut tail = [0; 7];
    assert_eq!(device.render(&mut tail), Some(0));
    assert_eq!(tail, [10; 7]);
    assert_eq!(prepare.reclaim(), 1);
}

#[test]
fn realtime_handoff_probe_admission_waits_for_first_frame_before_overlap_commit() {
    let (mut prepare, mut device) = pipe(1);
    let mut ledger = SourceLedger::new(Arc::clone(&device.progress)).unwrap();
    ledger.enqueue(source_pcm(&[1, 2, 3, 4]));
    assert!(prepare
        .publish(PreparedSource::prepare(
            &source_pcm(&[1, 2, 3, 4]),
            1,
            0,
            &[1; 4]
        ))
        .is_ok());
    let gate = Arc::clone(&device.gate);
    let callback = gate.begin_callback().unwrap();
    assert!(callback.claim(0, 1));
    device.claimed = true; // Pause where the reader has made its claim.
    let mut replacement = source_pcm(&[20, 21, 22, 23]);
    replacement.timestamp = 2_000;
    let retry = ledger.try_enqueue(replacement, &gate, || {});
    assert!(retry.is_err());
    let mut first = [0];
    assert_eq!(device.render_active(&callback, &mut first), 0);
    assert_eq!(first, [1]);
    drop(callback);
    assert_eq!(
        ledger
            .try_enqueue(retry.unwrap_err(), &device.gate, || {})
            .ok()
            .expect("completed read permits admission"),
        EnqueueOutcome::Accepted {
            queued_frames: 7,
            queued_buffers: 2,
        }
    );
    let mut tail = [0; 3];
    assert_eq!(device.render(&mut tail), Some(0));
    assert_eq!(tail, [2, 3, 4]);
    ledger.reconcile();
    let mut remaining = Vec::new();
    let mut sample = [0];
    while ledger
        .source
        .cursor
        .consume_next_frame(1, 1_000, Some(&mut sample))
    {
        remaining.push(sample[0]);
    }
    assert_eq!(remaining, [22, 23]);
    assert_eq!(prepare.reclaim(), 1);
}

#[test]
fn realtime_handoff_probe_admission_overlapping_next_source_outputs_only_live_suffix() {
    let (mut prepare, mut device) = pipe(2);
    let mut ledger = SourceLedger::new(Arc::clone(&device.progress)).unwrap();
    let first = source_pcm(&[1, 2, 3, 4]);
    let first_prepared = PreparedSource::prepare(&first, 1, 0, &[1; 4]);
    ledger.enqueue(first);
    assert!(prepare.publish(first_prepared).is_ok());
    assert_eq!(device.render(&mut [0]), Some(0));
    let mut next = source_pcm(&[20, 21, 22, 23]);
    next.timestamp = 2_000;
    let next_prepared =
        PreparedSource::prepare_from_cursor(&next, 2, device.gate.view().epoch(), &[1; 2], 4_000);
    assert_eq!(
        ledger.try_enqueue(next, &device.gate, || {}).ok(),
        Some(EnqueueOutcome::Accepted {
            queued_frames: 7,
            queued_buffers: 2,
        })
    );
    assert!(prepare.publish(next_prepared).is_ok());
    let mut output = [0; 6];
    assert_eq!(device.render(&mut output), Some(1));
    assert_eq!(output, [2, 3, 4, 22, 23, 0]);
    assert_eq!(device.progress.load(Ordering::Acquire), 6);
    ledger.reconcile();
    assert_eq!(ledger.owner.consumed_frames(ledger.scope).unwrap(), 6);
    assert_eq!(queued(&ledger), 0);
    assert_eq!(prepare.reclaim(), 2);
}

#[test]
fn realtime_handoff_probe_admission_uses_partial_source_progress_before_full_check() {
    let (mut prepare, mut device) = pipe(2);
    let mut ledger = SourceLedger::new(Arc::clone(&device.progress)).unwrap();
    for first in [1, 20] {
        let samples: Vec<_> = (first..first + 16).collect();
        assert_eq!(
            ledger.enqueue(source_pcm(&samples)),
            Some(EnqueueOutcome::Accepted {
                queued_frames: 16,
                queued_buffers: 1,
            })
        );
    }
    let data = PreparedSource::prepare(&ledger.source.cursor.queue[0].buffer, 1, 0, &[1; 16]);
    assert!(prepare.publish(data).is_ok());
    assert_eq!(queued(&ledger), 16);
    assert_eq!(ledger.owner.consumed_frames(ledger.scope).unwrap(), 0);
    let mut first = [0; 8];
    assert_eq!(device.render(&mut first), Some(0));
    assert_eq!(first, [20, 21, 22, 23, 24, 25, 26, 27]);
    let mut next = source_pcm(&[100; 16]);
    next.timestamp = 16_000;
    assert_eq!(
        ledger.enqueue(next),
        Some(EnqueueOutcome::Accepted {
            queued_frames: 24,
            queued_buffers: 2,
        })
    );
    assert_eq!(ledger.owner.consumed_frames(ledger.scope).unwrap(), 8);
    let mut excessive = source_pcm(&[200; 9]);
    excessive.timestamp = 32_000;
    assert_eq!(
        ledger.enqueue(excessive),
        Some(EnqueueOutcome::Full {
            queued_frames: 24,
            queued_buffers: 2,
        })
    );
    let mut rest = [0; 8];
    assert_eq!(device.render(&mut rest), Some(0));
    assert_eq!(rest, [28, 29, 30, 31, 32, 33, 34, 35]);
    ledger.reconcile();
    assert_eq!(queued(&ledger), 16);
    assert_eq!(ledger.owner.consumed_frames(ledger.scope).unwrap(), 16);
    ledger.reconcile();
    assert_eq!(ledger.owner.consumed_frames(ledger.scope).unwrap(), 16);
    assert_eq!(prepare.reclaim(), 1);
}

#[test]
fn realtime_handoff_probe_admission_correction_progress_releases_only_consumed_source() {
    let (mut prepare, mut device) = pipe(1);
    let mut ledger = SourceLedger::new(Arc::clone(&device.progress)).unwrap();
    assert!(matches!(
        ledger.enqueue(source_pcm(&[10, 20, 30, 40])),
        Some(EnqueueOutcome::Accepted { .. })
    ));
    let data = PreparedSource::prepare(&ledger.source.cursor.queue[0].buffer, 1, 0, &[1, 0, 2, 1]);
    assert!(prepare.publish(data).is_ok());
    let mut output = [0; 2];
    assert_eq!(device.render(&mut output), Some(0));
    ledger.reconcile();
    assert_eq!(output, [10, 10]);
    assert_eq!(ledger.owner.consumed_frames(ledger.scope).unwrap(), 1);
    assert_eq!(queued(&ledger), 3);
    assert_eq!(device.render(&mut output), Some(0));
    ledger.reconcile();
    assert_eq!(output, [30, 40]);
    assert_eq!(ledger.owner.consumed_frames(ledger.scope).unwrap(), 4);
    assert_eq!(queued(&ledger), 0);
    assert_eq!(prepare.reclaim(), 1);
}

#[test]
fn realtime_handoff_probe_admission_close_during_accounting_returns_owner_outcome() {
    for replace_scope in [false, true] {
        let gate = ControlGate::default();
        let mut ledger = SourceLedger::with_checkpoint(
            Arc::new(AtomicU64::new(0)),
            Arc::new(PublishedCheckpoint::new(1)),
        )
        .unwrap();
        let owner = ledger.owner.clone();
        let scope = ledger.scope;
        let id_before = ledger.next_source_id;
        let result = ledger.try_enqueue(source_pcm(&[1]), &gate, || {
            if replace_scope {
                owner.teardown(scope);
                owner.mint_scope().unwrap();
            } else {
                assert_eq!(owner.close(scope), RendererOperationOutcome::Applied);
            }
        });
        assert!(
            matches!(result, Ok(outcome) if outcome == if replace_scope { EnqueueOutcome::StaleScope } else { EnqueueOutcome::Closed })
        );
        assert_eq!(ledger.next_source_id, id_before);
        assert_eq!(ledger.source.cursor.queued_frames(1), 0);
        assert_eq!(ledger.source.cursor.buffer_count(), 0);
    }
}

#[test]
fn a_scope_reads_only_its_own_consumption() {
    let (mut prepare, mut device) = pipe(1);
    let ledger = SourceLedger::new(Arc::clone(&device.progress)).unwrap();
    let owner = ledger.owner.clone();
    let scope = ledger.scope;
    let consumption = ScopedConsumption {
        owner: owner.clone(),
        scope,
        actual: Arc::clone(&device.progress),
    };
    assert_eq!(consumption.read(scope), Ok(0));
    let data = PreparedSource::prepare(&source_pcm(&[10, 20, 30, 40]), 1, 0, &[1, 0, 2]);
    assert!(prepare.publish(data).is_ok());
    let mut output = [0; 3];
    assert_eq!(device.render(&mut output), Some(0));
    assert_eq!(output, [10, 10, 30]);
    assert_eq!(consumption.read(scope), Ok(3));
    assert_eq!(
        owner.consumed_frames(scope),
        Ok(0),
        "the owner's tally is not the device's"
    );
    let TerminalOutcome::Won(finalization) = owner.teardown(scope) else {
        panic!("first finalizer wins")
    };
    assert_eq!(
        owner.teardown(scope),
        TerminalOutcome::AlreadyFinalized(finalization)
    );
    assert_eq!(consumption.read(scope), Ok(3));
    let replacement = owner.mint_scope().unwrap();
    assert_eq!(
        consumption.read(scope),
        Err(RendererOperationOutcome::StaleScope)
    );
    assert_eq!(
        consumption.read(replacement),
        Err(RendererOperationOutcome::StaleScope)
    );
}

#[test]
fn a_buffer_of_another_format_is_not_counted() {
    let progress = Arc::new(AtomicU64::new(0));
    let mut ledger = SourceLedger::new(Arc::clone(&progress)).unwrap();
    let mut stereo = source_pcm(&[1, 2]);
    stereo.format.channels = 2;
    assert_eq!(ledger.enqueue(stereo), None);
    assert_eq!(ledger.next_source_id, 1);
    progress.store(5, Ordering::Release);
    assert!(
        !ledger.reconcile(),
        "more was consumed than was ever queued"
    );
}

#[test]
fn a_count_is_taken_over_by_playing_on() {
    let mut ledger = SourceLedger::new(Arc::new(AtomicU64::new(0))).unwrap();
    assert!(matches!(
        ledger.enqueue(source_pcm(&[1, 2, 3])),
        Some(EnqueueOutcome::Accepted { .. })
    ));
    assert_eq!(ledger.consume_to(0), Some(0));
    assert_eq!(ledger.consume_to(2), Some(2));
    assert_eq!(ledger.settled, 2);
    assert_eq!(ledger.source.cursor.queued_frames(1), 1);
    assert_eq!(ledger.consume_to(1), None, "a count does not go back");
    assert_eq!(ledger.consume_to(4), None, "there is no fourth frame");
    assert_eq!(ledger.settled, 2);
}

#[test]
fn a_buffer_larger_than_allowed_is_full() {
    let gate = ControlGate::default();
    let mut ledger = SourceLedger::new(Arc::new(AtomicU64::new(0))).unwrap();
    assert_eq!(
        ledger
            .try_enqueue(source_pcm(&[1; 17]), &gate, || {})
            .unwrap(),
        EnqueueOutcome::Full {
            queued_frames: 0,
            queued_buffers: 0
        }
    );
    assert_eq!(
        ledger.try_enqueue(source_pcm(&[]), &gate, || {}).unwrap(),
        EnqueueOutcome::InvalidBuffer
    );
    assert_eq!(ledger.next_source_id, 1);
}

#[test]
fn a_ledger_follows_what_was_found_of_the_device() {
    let mut ledger = SourceLedger::new(Arc::new(AtomicU64::new(0))).unwrap();
    ledger.enqueue(source_pcm(&[1, 2, 3]));
    let untold = |_: usize, _: usize, _: usize| -> bool { panic!("there is nothing to tell") };
    assert!(!ledger.follow(Pace::nothing(), None, untold));
    let found = Pace {
        observed: true,
        ..Pace::nothing()
    };
    assert!(ledger.follow(found, None, untold));
    let played = Pace {
        consumed: 2,
        ..found
    };
    assert!(!ledger.follow(played, None, |frames, queued_frames, queued_buffers| {
        assert_eq!((frames, queued_frames, queued_buffers), (2, 1, 1));
        false
    }));
    assert_eq!(ledger.settled, 2);
    assert!(ledger.catch_up(3, |frames, _, _| frames == 1));
    assert!(!ledger.catch_up(4, untold), "there is no fourth frame");
    let publication = Arc::new(PublishedCheckpoint::new(1));
    let mut ledger =
        SourceLedger::with_checkpoint(Arc::new(AtomicU64::new(0)), publication).unwrap();
    assert!(!ledger.follow(found, None, untold));
    assert!(ledger.follow(
        Pace {
            stood: true,
            ..found
        },
        None,
        untold
    ));
    assert!(!ledger.follow(
        Pace {
            counted: true,
            stood: true,
            ..found
        },
        None,
        untold
    ));
}

#[test]
fn a_reading_is_settled_once_the_owner_is_told() {
    let gate = ControlGate::default();
    let progress = Arc::new(AtomicU64::new(0));
    let publication = Arc::new(PublishedCheckpoint::new(1));
    let mut ledger =
        SourceLedger::with_checkpoint(Arc::clone(&progress), Arc::clone(&publication)).unwrap();
    assert!(ledger
        .try_enqueue(source_pcm(&[1, 2, 3]), &gate, || {})
        .is_ok());
    let callback = gate.begin_callback().unwrap();
    assert!(callback.claim(0, 1));
    progress.store(2, Ordering::Release);
    let cadence = Cadence {
        schedule: CorrectionSchedule {
            drop_every_n_frames: 9,
            ..CorrectionSchedule::default()
        },
        insert_counter: 0,
        drop_counter: 4,
    };
    let position = SourcePosition {
        retired_through: 0,
        current: 1,
        index: 2,
        cursor_us: 2_000,
        cursor_remainder: 0,
    };
    publication.publish(cadence, position, 2, Some(&[2]));
    drop(callback);
    let actual = publication.read(&gate, &progress).unwrap();
    let found = Pace {
        observed: true,
        counted: true,
        read: Some((actual.position, actual.source_frames)),
        ..Pace::nothing()
    };
    assert!(!ledger.follow(found, Some(&actual), |frames, queued, buffers| {
        assert_eq!((frames, queued, buffers), (2, 1, 1));
        false
    }));
    assert_eq!(ledger.settled, 0, "the owner was not told");
    assert_eq!(ledger.source.cursor.queued_frames(1), 1);
    assert!(ledger.follow(found, Some(&actual), |frames, _, _| frames == 2));
    assert_eq!(ledger.settled, 2);
    assert_eq!(ledger.source.output_frames, 2);
    assert_eq!(ledger.source.last, [2]);
    assert_eq!(ledger.source.schedule, cadence.schedule);
    assert_eq!(ledger.source.counters.drop, 4);
    drop(actual);
    let (_, fork) = ledger.preparation(&gate).unwrap();
    assert_eq!(fork.schedule, cadence.schedule);
    assert_eq!((fork.output_frames, fork.counters.drop), (2, 4));
}
