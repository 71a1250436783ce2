use sendspin::audio::sync_correction::CorrectionSchedule;
use sendspin::audio::synced_player::queue::PlaybackQueue;
use sendspin::audio::synced_player::reader::Reader;
use sendspin::audio::synced_player::ingress::checkpoint::SourcePosition;
use sendspin::audio::synced_player::ingress::ControlGate;
use sendspin::audio::synced_player::source::{
    admission_of, admission_step, Admission, AdmissionStep, OwnerAnswer, Pace, Publication,
};
use sendspin::audio::synced_player::transport;
use sendspin::audio::{
    AudioBuffer, AudioFormat, Codec, EnqueueOutcome, RendererOperationOutcome, RendererOwner,
    RendererQueueLimits,
};
use std::sync::Arc;

fn input(timestamp: i64, samples: &[i32]) -> AudioBuffer {
    AudioBuffer {
        timestamp,
        samples: Arc::from(samples),
        format: AudioFormat {
            codec: Codec::Pcm,
            sample_rate: 1_000,
            channels: 1,
            bit_depth: 24,
            codec_header: None,
        },
    }
}

#[test]
fn renderer_realtime_source_admission_settles_actual_capacity_and_clear_keeps_counter() {
    let limits = RendererQueueLimits::new(4, 3, 4).unwrap();
    let owner = RendererOwner::new(limits);
    let scope = owner.mint_scope().unwrap();
    let publication = Publication::new(&owner, scope, 1, limits).ok().unwrap();
    let mut canonical = PlaybackQueue::new();
    canonical.attach_publication(&publication);
    let accepted = canonical
        .try_enqueue_prepared(&publication, &owner, scope, input(0, &[1, 2, 3, 4]), 4)
        .ok()
        .unwrap();
    assert!(matches!(
        accepted,
        EnqueueOutcome::Accepted {
            queued_frames: 4,
            ..
        }
    ));
    let mut private = PlaybackQueue::new();
    private.queue.reserve(limits.hard_buffers());
    let (epoch, _, base) = canonical
        .preparation_snapshot(&publication, &owner, scope, &mut private)
        .unwrap();
    let (mut producer, mut device) = transport::pipe(2, 2, 1).unwrap();
    for base in [base, base + 2] {
        private.prepare_window(producer.builder_mut(), epoch, base, 1, 1_000);
        assert!(producer.publish());
    }
    let mut reader = Reader::new(1);
    let mut output = [0; 2];
    reader.render(
        &mut device,
        &publication.control.begin_callback().unwrap(),
        &publication.checkpoint,
        &publication.consumed,
        &mut output,
        false,
        Some(CorrectionSchedule::default()),
    );
    assert_eq!(output, [1, 2]);
    assert_eq!(owner.consumed_frames(scope), Ok(2));
    // Admission must see two actually consumed frames even when no worker
    // has independently refreshed the old capacity snapshot.
    let accepted = canonical
        .try_enqueue_prepared(&publication, &owner, scope, input(4_000, &[5, 6]), 2)
        .ok()
        .unwrap();
    assert!(matches!(
        accepted,
        EnqueueOutcome::Accepted {
            queued_frames: 4,
            ..
        }
    ));
    assert_eq!(owner.consumed_frames(scope), Ok(2));
    assert_eq!(
        canonical.clear_with_actual(&publication, &owner, scope),
        Ok(RendererOperationOutcome::Applied)
    );
    assert_eq!(owner.consumed_frames(scope), Ok(2));
    let accepted = canonical
        .try_enqueue_prepared(&publication, &owner, scope, input(10_000, &[9, 10]), 2)
        .ok()
        .unwrap();
    assert!(matches!(
        accepted,
        EnqueueOutcome::Accepted {
            queued_frames: 2,
            ..
        }
    ));
    let (epoch, _, base) = canonical
        .preparation_snapshot(&publication, &owner, scope, &mut private)
        .unwrap();
    assert_eq!(base, 2);
    assert_eq!(producer.reclaim(), 1);
    private.prepare_window(producer.builder_mut(), epoch, base, 1, 1_000);
    assert!(producer.publish());
    reader.render(
        &mut device,
        &publication.control.begin_callback().unwrap(),
        &publication.checkpoint,
        &publication.consumed,
        &mut output,
        false,
        Some(CorrectionSchedule::default()),
    );
    assert_eq!(output, [9, 10], "revoked old tail must not resume");
    assert_eq!(owner.consumed_frames(scope), Ok(4));
    drop(
        canonical
            .reconcile_actual(&publication, &owner, scope)
            .unwrap(),
    );
    assert_eq!(owner.capacity(scope).unwrap().current_frames(), 0);
    assert_eq!(owner.capacity(scope).unwrap().high_water_frames(), 4);
    canonical.teardown_with_actual(&owner, scope);
    assert!(
        canonical
            .reconcile_actual(&publication, &owner, scope)
            .is_err(),
        "a stopped worker must not reconcile a pre-terminal checkpoint into a cleared source"
    );
    assert_eq!(owner.consumed_frames(scope), Ok(4));
}

#[test]
fn renderer_realtime_source_explicit_reanchor_retains_pending_until_playable_target() {
    let limits = RendererQueueLimits::new(4, 3, 4).unwrap();
    let owner = RendererOwner::new(limits);
    let scope = owner.mint_scope().unwrap();
    let publication = Publication::new(&owner, scope, 1, limits).ok().unwrap();
    let mut source = PlaybackQueue::new();
    source.attach_publication(&publication);
    source
        .try_enqueue_prepared(&publication, &owner, scope, input(100_000, &[1, 2]), 2)
        .ok()
        .unwrap();
    source
        .try_enqueue_prepared(&publication, &owner, scope, input(300_000, &[3, 4]), 2)
        .ok()
        .unwrap();
    let epoch = publication.control.view().epoch();
    assert_eq!(
        source.try_reanchor_prepared(&publication, &owner, scope, || None, true),
        Ok(None)
    );
    assert_eq!(
        source.try_reanchor_prepared(&publication, &owner, scope, || Some(400_000), true),
        Ok(None)
    );
    assert!(source.force_reanchor);
    assert_eq!(publication.control.view().epoch(), epoch);
    assert_eq!(
        source.try_reanchor_prepared(&publication, &owner, scope, || Some(200_000), true),
        Ok(Some(300_000))
    );
    assert!(!source.force_reanchor);
    assert_eq!(source.cursor_us, 300_000);
    assert_eq!(publication.control.view().epoch(), epoch + 1);
    assert_eq!(owner.consumed_frames(scope), Ok(0));
}

#[test]
fn an_active_callback_sends_the_input_back() {
    let limits = RendererQueueLimits::new(4, 3, 4).unwrap();
    let owner = RendererOwner::new(limits);
    let scope = owner.mint_scope().unwrap();
    let publication = Publication::new(&owner, scope, 1, limits).ok().unwrap();
    let mut source = PlaybackQueue::new();
    source.attach_publication(&publication);
    let pending = input(0, &[1, 2]);
    let original = Arc::clone(&pending.samples);
    let callback = publication.control.begin_callback().unwrap();
    let back = match source.try_enqueue_prepared(&publication, &owner, scope, pending, 2) {
        Err(back) => back,
        Ok(outcome) => panic!("a decision escaped as {outcome:?}"),
    };
    assert!(Arc::ptr_eq(&back.samples, &original));
    drop(callback);
    assert_eq!(
        source
            .try_enqueue_prepared(&publication, &owner, scope, back, 2)
            .ok(),
        Some(EnqueueOutcome::Accepted {
            queued_frames: 2,
            queued_buffers: 1
        })
    );
    assert_eq!(
        source
            .try_enqueue_prepared(&publication, &owner, scope, input(2_000, &[3, 4, 5]), 3)
            .ok(),
        Some(EnqueueOutcome::Full {
            queued_frames: 2,
            queued_buffers: 1
        })
    );
    owner.close(scope);
    assert_eq!(
        source
            .try_enqueue_prepared(&publication, &owner, scope, input(2_000, &[3]), 1)
            .ok(),
        Some(EnqueueOutcome::Closed)
    );
}

#[test]
fn only_a_replacement_takes_a_new_version() {
    let limits = RendererQueueLimits::new(16, 4, 4).unwrap();
    let owner = RendererOwner::new(limits);
    let scope = owner.mint_scope().unwrap();
    let publication = Publication::new(&owner, scope, 1, limits).ok().unwrap();
    let mut source = PlaybackQueue::new();
    source.attach_publication(&publication);
    for (timestamp, expected_epoch) in [(0, 0), (2_000, 0), (1_000, 1), (8_000, 1)] {
        assert!(matches!(
            source.try_enqueue_prepared(&publication, &owner, scope, input(timestamp, &[1, 2]), 2),
            Ok(EnqueueOutcome::Accepted { .. })
        ));
        assert_eq!(publication.control.view().epoch(), expected_epoch);
    }
}

#[test]
fn a_view_is_extended_without_preparing_anything_again() {
    let mut canonical = PlaybackQueue::new();
    canonical.push(input(0, &[1, 2]));
    let mut private = PlaybackQueue::new();
    canonical.copy_source_into(&mut private);
    assert!(private.consume_next_frame(1, 1_000, None));
    canonical.push(input(2_000, &[3]));
    assert!(canonical.refresh_preparation_into(&mut private));
    assert_eq!(private.queued_frames(1), 2);
    let mut sample = [0];
    assert!(private.consume_next_frame(1, 1_000, Some(&mut sample)));
    assert_eq!(sample, [2]);
    assert!(private.consume_next_frame(1, 1_000, Some(&mut sample)));
    assert_eq!(sample, [3]);
}

#[test]
fn a_stale_scope_has_no_publication() {
    let limits = RendererQueueLimits::new(4, 3, 4).unwrap();
    let owner = RendererOwner::new(limits);
    let scope = owner.mint_scope().unwrap();
    owner.teardown(scope);
    owner.mint_scope().unwrap();
    assert_eq!(
        Publication::new(&owner, scope, 1, limits).err(),
        Some(RendererOperationOutcome::StaleScope)
    );
}

#[test]
fn renderer_realtime_source_retries_stale_full_and_accepted_after_actual_progress() {
    // Both an initially Full decision and an initially fitting decision must
    // be revalidated, preserving the same input through the internal retry.
    for (initial, consumed_now, expected_tail) in [
        (vec![1, 2, 3, 4], 2, vec![3, 4, 9, 10]),
        (vec![1, 2], 1, vec![2, 9, 10]),
    ] {
        let limits = RendererQueueLimits::new(4, 3, 4).unwrap();
        let owner = RendererOwner::new(limits);
        let scope = owner.mint_scope().unwrap();
        let publication = Publication::new(&owner, scope, 1, limits).ok().unwrap();
        let mut canonical = PlaybackQueue::new();
        canonical.attach_publication(&publication);
        assert!(matches!(
            canonical.try_enqueue_prepared(
                &publication,
                &owner,
                scope,
                input(0, &initial),
                initial.len()
            ),
            Ok(EnqueueOutcome::Accepted { .. })
        ));
        let mut private = PlaybackQueue::new();
        private.queue.reserve(limits.hard_buffers());
        let (epoch, _, base) = canonical
            .preparation_snapshot(&publication, &owner, scope, &mut private)
            .unwrap();
        let (mut producer, mut device) = transport::pipe(2, 4, 1).unwrap();
        private.prepare_window(producer.builder_mut(), epoch, base, 1, 1_000);
        assert!(producer.publish());
        let mut reader = Reader::new(1);
        let pending = input(initial.len() as i64 * 1_000, &[9, 10]);
        let original_samples = Arc::clone(&pending.samples);
        let mut prefix = vec![0; consumed_now];
        let attempt = canonical.try_enqueue_prepared_with(
            &publication,
            &owner,
            scope,
            pending,
            2,
            || {
                reader.render(
                    &mut device,
                    &publication.control.begin_callback().unwrap(),
                    &publication.checkpoint,
                    &publication.consumed,
                    &mut prefix,
                    false,
                    Some(CorrectionSchedule::default()),
                );
            },
        );
        assert_eq!(prefix, initial[..consumed_now]);
        let pending = match attempt {
            Err(pending) => pending,
            Ok(outcome) => panic!("stale decision escaped as {outcome:?}"),
        };
        assert!(Arc::ptr_eq(&pending.samples, &original_samples));
        assert_eq!(owner.consumed_frames(scope), Ok(consumed_now as u64));
        let outcome = canonical
            .try_enqueue_prepared(&publication, &owner, scope, pending, 2)
            .ok()
            .unwrap();
        assert!(
            matches!(outcome, EnqueueOutcome::Accepted { queued_frames, .. }
            if queued_frames == expected_tail.len())
        );
        let (epoch, _, base) = canonical
            .preparation_snapshot(&publication, &owner, scope, &mut private)
            .unwrap();
        private.prepare_window(producer.builder_mut(), epoch, base, 1, 1_000);
        assert!(producer.publish());
        let mut tail = vec![0; expected_tail.len()];
        reader.render(
            &mut device,
            &publication.control.begin_callback().unwrap(),
            &publication.checkpoint,
            &publication.consumed,
            &mut tail,
            false,
            Some(CorrectionSchedule::default()),
        );
        assert_eq!(tail, expected_tail, "accepted input remains consumable");
        assert_eq!(owner.consumed_frames(scope), Ok((initial.len() + 2) as u64));
    }
}

#[test]
fn what_was_found_of_a_buffer_decides() {
    let closed = admission_of(true);
    assert_eq!(admission_step(closed), AdmissionStep::Ask);
    let refused = |outcome| Some(OwnerAnswer::Refuses { outcome });
    let full = EnqueueOutcome::Full {
        queued_frames: 4,
        queued_buffers: 1,
    };
    for (answer, step) in [
        (
            refused(EnqueueOutcome::Closed),
            AdmissionStep::Answer {
                outcome: EnqueueOutcome::Closed,
            },
        ),
        (refused(full), AdmissionStep::Answer { outcome: full }),
        (Some(OwnerAnswer::Admits), AdmissionStep::Retry),
    ] {
        assert_eq!(admission_step(Admission { answer, ..closed }), step);
    }
    let open = admission_of(false);
    assert_eq!(admission_step(open), AdmissionStep::Retry);
    let fitting = Admission {
        caught_up: true,
        fits: true,
        ..open
    };
    assert_eq!(admission_step(fitting), AdmissionStep::Replace);
    assert_eq!(
        admission_step(Admission {
            appends: true,
            ..fitting
        }),
        AdmissionStep::Validate
    );
    assert_eq!(
        admission_step(Admission {
            fits: false,
            ..fitting
        }),
        AdmissionStep::Validate
    );
    let stood = Admission {
        stood: Some(true),
        pushable: true,
        ..fitting
    };
    assert_eq!(admission_step(stood), AdmissionStep::Ask);
    assert_eq!(
        admission_step(Admission {
            stood: Some(false),
            ..stood
        }),
        AdmissionStep::Retry
    );
    assert_eq!(
        admission_step(Admission {
            pushable: false,
            ..stood
        }),
        AdmissionStep::Retry
    );
    for (fits, answer, step) in [
        (true, Some(OwnerAnswer::Admits), AdmissionStep::Push),
        (false, Some(OwnerAnswer::Admits), AdmissionStep::Push),
        (true, refused(full), AdmissionStep::Answer { outcome: full }),
        (
            false,
            refused(full),
            AdmissionStep::Answer { outcome: full },
        ),
        (
            true,
            refused(EnqueueOutcome::StaleScope),
            AdmissionStep::Answer {
                outcome: EnqueueOutcome::StaleScope,
            },
        ),
    ] {
        assert_eq!(
            admission_step(Admission {
                fits,
                answer,
                ..stood
            }),
            step
        );
    }
}

#[test]
fn a_scope_that_closes_during_admission_is_answered_so() {
    let limits = RendererQueueLimits::new(4, 3, 4).unwrap();
    let owner = RendererOwner::new(limits);
    let scope = owner.mint_scope().unwrap();
    let publication = Publication::new(&owner, scope, 1, limits).ok().unwrap();
    let mut source = PlaybackQueue::new();
    source.attach_publication(&publication);
    // A close changes the word that was observed, so the decision is made anew.
    let back = source
        .try_enqueue_prepared_with(&publication, &owner, scope, input(0, &[1]), 1, || {
            owner.close(scope);
        });
    match back {
        Err(back) => assert_eq!(
            source
                .try_enqueue_prepared(&publication, &owner, scope, back, 1)
                .ok(),
            Some(EnqueueOutcome::Closed)
        ),
        Ok(outcome) => assert_eq!(outcome, EnqueueOutcome::Closed),
    }
    assert_eq!((source.next_source_id, source.enqueue_count), (1, 0));
}

#[test]
fn a_queue_follows_what_was_found_of_the_device() {
    let mut source = PlaybackQueue::new();
    source.push(input(0, &[1, 2, 3, 4]));
    let found = Pace {
        open: true,
        observed: true,
        ..Pace::nothing()
    };
    let untold = |_: usize, _: usize| -> bool { panic!("there is nothing to tell") };
    assert!(!source.follow(Pace::nothing(), 1, untold));
    assert!(!source.follow(found, 1, untold), "the observation did not stand");
    assert!(source.follow(Pace { stood: true, ..found }, 1, untold));
    assert!(!source.follow(
        Pace {
            stood: true,
            consumed: 2,
            ..found
        },
        1,
        untold
    ));
    let counted = Pace {
        counted: true,
        ..found
    };
    assert!(!source.follow(counted, 1, untold), "no position was read");
    let position = SourcePosition {
        retired_through: 0,
        current: 1,
        index: 3,
        cursor_us: 3_000,
        cursor_remainder: 0,
    };
    let foreign = SourcePosition {
        current: 9,
        ..position
    };
    let at = |position| Pace {
        read: Some((position, 3)),
        ..counted
    };
    assert!(!source.follow(at(foreign), 1, untold));
    assert_eq!(source.settled_consumed, 0);
    assert!(!source.follow(at(position), 1, |frames, buffers| {
        assert_eq!((frames, buffers), (1, 1));
        false
    }));
    assert_eq!(source.settled_consumed, 3, "the device has played it");
    assert!(source.follow(at(position), 1, |_, _| true));
    assert_eq!(source.queued_frames(1), 1);
    assert_eq!(source.cursor_us, 3_000);
}

#[test]
fn a_decision_is_made_final_by_a_version_or_by_validation() {
    let gate = ControlGate::default();
    let stands = gate.conclude(gate.observe().unwrap(), false).unwrap();
    assert_eq!(stands.epoch(), 0);
    let stands = gate.conclude(gate.observe().unwrap(), true).unwrap();
    assert_eq!(stands.epoch(), 1);
    assert_eq!(gate.view().epoch(), 1);
    for replaces in [false, true] {
        let observation = gate.observe().unwrap();
        drop(gate.begin_callback().unwrap());
        assert!(gate.conclude(observation, replaces).is_none());
    }
    assert_eq!(gate.view().epoch(), 1);
}
