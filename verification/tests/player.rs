use sendspin::audio::owner::{Accounts, Minted};
use sendspin::audio::sync_correction::CorrectionSchedule;
use sendspin::audio::synced_player::allocation::{add_up, arc_bytes};
use sendspin::audio::synced_player::device::{
    answers_at, gap_since, is_heard, measured_latency, playback_of, presentation_for, Device,
    Diagnostics, Entry, Evidence, OutputState, TimestampFallback, Turn,
};
use sendspin::audio::synced_player::handoff_probe::timeline::feedback::{
    ModelHealth, ModelValidity, Observation, ValidatedObservation,
};
use sendspin::audio::synced_player::player::{
    assemble, block_frames, build, plan_for, plan_player, put_together, room_wanted, BuildError,
    Player,
};
use sendspin::audio::synced_player::source::Publication;
use sendspin::audio::synced_player::transport::pipe;
use sendspin::audio::synced_player::queue::PlaybackQueue;
use sendspin::audio::synced_player::reader::Reader;
use sendspin::audio::synced_player::ring::channel;
use sendspin::audio::synced_player::runtime::{
    decode_instant, encode_instant, encode_timing, find_timing, pack_flags, unpack_flags,
    InstantWords, Timing, TimingMailbox, OBSERVATIONS, WINDOWS,
};
use sendspin::audio::synced_player::worker::{
    anchor_instant, boundary_of, boundary_zone, delayed, frames_duration, frames_ns, timing_holds, timing_of,
    valid_limit, AnchorRequest, DeviceEvent, FilteredError, Refresh, SnapshotKey, TimingFacts,
    WorkerState,
};
use sendspin::audio::{
    AudioBuffer, AudioFormat, Codec, EnqueueOutcome, PlayerScope, RendererOperationOutcome,
    RendererOwner, RendererQueueLimits, ScheduledArmOutcome, ScheduledStartOutcome, StartState,
    TerminalOutcome,
};
use std::sync::Arc;
use std::time::{Duration, Instant};

const NO_EVIDENCE: Evidence = Evidence {
    xrun_count: None,
    buffer_size_frames: None,
};

fn input(timestamp: i64, samples: &[i32]) -> AudioBuffer {
    AudioBuffer {
        timestamp,
        samples: Arc::from(samples),
        format: AudioFormat {
            codec: Codec::Pcm,
            sample_rate: 1_000,
            channels: 1,
            bit_depth: 24,
            codec_header: None,
        },
    }
}

fn player() -> (RendererOwner, PlayerScope, PlaybackQueue, Player) {
    let owner = RendererOwner::new(RendererQueueLimits::new(32, 8, 16).unwrap());
    let scope = owner.mint_scope().unwrap();
    let mut queue = PlaybackQueue::new();
    let player = build(&mut queue, 1_000, 1, &owner, scope, 0).ok().unwrap();
    (owner, scope, queue, player)
}

fn entry(captured_at: Instant, frames: usize) -> Entry {
    Entry {
        captured_at,
        now_us: 0,
        frames,
        measured_ns: Some(0),
        period_ns: frames as u64 * 1_000_000,
        playback_delay_us: 0,
        gap_us: None,
        fallback: None,
        evidence: NO_EVIDENCE,
        configured_delay_us: 0,
        open: true,
    }
}

/// One callback of the device.
fn callback(device: &mut Device, entry: Entry, output: &mut [i32]) -> (Turn, DeviceEvent) {
    let publication = Arc::clone(&device.publication);
    let guard = publication.control.begin_callback().unwrap();
    let mut turn = device.enter(&guard, entry);
    if turn.audible {
        device.play_block(&guard, &mut turn, output);
    } else {
        output.fill(0);
    }
    let event = device.leave(turn, entry.frames);
    (turn, event)
}

fn event(generation: u64) -> DeviceEvent {
    DeviceEvent {
        diagnostics: Diagnostics {
            generation,
            callbacks: 1,
            ..Diagnostics::of_rate(1_000)
        },
        generation,
        serial: 1,
        callback_frames: 4,
        delay_us: 0,
        playback_delta_ns: 7,
        latency_floor_ns: None,
        started: false,
        feedback: None,
    }
}

fn state_request(explicit: bool) -> AnchorRequest {
    AnchorRequest {
        explicit,
        ahead_ns: 0,
        handoff_frames: 0,
    }
}

fn request(timeline: u64) -> ValidatedObservation {
    ValidatedObservation {
        latency_floor_ns: Some(3),
        input: Observation {
            settled_seen: true,
            timeline,
            serial: 1,
            source_cursor_us: 0,
            presentation: None,
            actual_schedule: CorrectionSchedule::default(),
        },
        reset_epoch: 0,
    }
}

#[test]
fn a_player_anchors_prepares_and_plays() {
    let (owner, scope, mut queue, mut player) = player();
    assert_eq!(player.samples, 16);
    assert!(player.planned_bytes > 0);
    assert!(player.allocated_bytes >= player.planned_bytes);
    let publication = Arc::clone(&player.worker.publication);
    assert!(matches!(
        queue.try_enqueue_prepared(&publication, &owner, scope, input(0, &[1, 2, 3, 4]), 4),
        Ok(EnqueueOutcome::Accepted {
            queued_frames: 4,
            queued_buffers: 1
        })
    ));
    queue.force_reanchor = true;
    // Nothing is known of the output yet, so there is no anchor and no view.
    let never = |_: AnchorRequest| -> Option<i64> { unreachable!() };
    assert_eq!(player.worker.keep_up(&mut queue, 0, never), None);
    assert_eq!(player.worker.state.snapshot, None);
    assert_eq!(player.worker.prepare_windows(false), 0);
    assert!(player.worker.timing_facts(&queue).pending);

    // A silent callback reports how far ahead its output lies.
    let start = Instant::now();
    let mut output = [9; 4];
    let (turn, reported) = callback(&mut player.device, entry(start, 4), &mut output);
    assert!(!turn.audible);
    assert_eq!(output, [0; 4]);
    assert_eq!(reported.feedback, None);
    assert_eq!(player.device.diagnostics.silent_frames, 4);
    let received = player.events.receive().unwrap();
    assert_eq!(received, reported);
    assert!(player.worker.state.take_event(received, None));

    // The anchor is made, and windows follow it.
    let made = player.worker.keep_up(&mut queue, 5, |request| {
        assert_eq!(
            request,
            AnchorRequest {
                explicit: true,
                ahead_ns: 0,
                handoff_frames: 4,
            }
        );
        Some(1_000)
    });
    assert!(made.is_some());
    assert!(!queue.force_reanchor);
    assert_eq!(queue.cursor_us, 1_000);
    assert_eq!(player.worker.state.startup_reanchors, 1);
    assert_eq!(player.worker.state.applied_delay_us, 5);
    assert_eq!(player.worker.prepare_windows(true), 1);
    assert_eq!(player.worker.state.prepared_base, 3);
    let facts = player.worker.timing_facts(&queue);
    assert!(!facts.pending);
    assert_eq!(facts.cursor_us, Some(1_000));
    assert!(player.device.timing.publish(Timing {
        epoch: facts.epoch,
        generation: facts.generation,
        delay_us: facts.delay_us,
        expected: Some(start),
        boundary: facts.boundary,
        boundary_deadline: None,
        valid_until: None,
        valid: true,
        pending: facts.pending,
    }));
    player.device.plans.publish(
        player.worker.state.timeline,
        Some(CorrectionSchedule::default()),
        ModelValidity::SameClock,
    );
    let (turn, reported) = callback(&mut player.device, entry(start, 4), &mut output);
    assert!(turn.audible);
    assert_eq!(output, [2, 3, 4, 0]);
    assert_eq!(turn.missing, 1);
    assert_eq!(turn.delay_us, 5);
    assert_eq!(player.device.diagnostics.underrun_frames, 1);
    assert!(reported.started);
    assert_eq!(reported.delay_us, 5);
    let feedback = reported.feedback.unwrap();
    assert_eq!(feedback.input.source_cursor_us, 1_000);
    assert_eq!(feedback.input.timeline, player.worker.state.timeline);
    assert_eq!(feedback.latency_floor_ns, Some(0));
    assert_eq!(
        owner.record_callback_underrun(scope, turn.missing),
        RendererOperationOutcome::Applied
    );
    assert_eq!(owner.health(scope).unwrap().underrun_frames(), 1);
    assert_eq!(owner.consumed_frames(scope), Ok(3));

    // Appending keeps the view; the window comes back.
    assert_eq!(player.worker.reclaim(), 1);
    assert!(matches!(
        queue.try_enqueue_prepared(&publication, &owner, scope, input(4_000, &[5, 6]), 2),
        Ok(EnqueueOutcome::Accepted { .. })
    ));
    assert_eq!(player.worker.keep_up(&mut queue, 5, never), None);
    assert_eq!(player.worker.prepare_windows(false), 1);
    let (_, _) = callback(&mut player.device, entry(start, 4), &mut output);
    assert_eq!(output, [5, 6, 0, 0]);
}

#[test]
fn a_scheduled_start_holds_a_player_back() {
    let (owner, scope, mut queue, mut player) = player();
    let publication = Arc::clone(&player.worker.publication);
    assert!(queue
        .try_enqueue_prepared(&publication, &owner, scope, input(0, &[1, 2, 3, 4]), 4)
        .is_ok());
    queue.force_reanchor = false;
    let never = |_: AnchorRequest| -> Option<i64> { unreachable!() };
    assert_eq!(player.worker.keep_up(&mut queue, 0, never), None);
    assert_eq!(player.worker.prepare_windows(false), 1);
    assert_eq!(
        owner.arm_scheduled_start(scope, 100),
        Ok(ScheduledArmOutcome::Armed)
    );
    let facts = player.worker.timing_facts(&queue);
    assert_eq!(facts.boundary, 100);
    assert_eq!(facts.boundary_zone, Some(100));
    let start = Instant::now();
    let deadline = start + Duration::from_millis(5);
    let timing = Timing {
        epoch: facts.epoch,
        generation: facts.generation,
        delay_us: 0,
        expected: Some(start),
        boundary: facts.boundary,
        boundary_deadline: Some(deadline),
        valid_until: Some(deadline),
        valid: true,
        pending: false,
    };
    assert!(player.device.timing.publish(timing));
    let mut output = [9; 2];
    let (turn, _) = callback(&mut player.device, entry(start, 2), &mut output);
    assert!(!turn.audible, "the boundary has not come");
    assert!(player.device.state.started);
    let (turn, _) = callback(
        &mut player.device,
        Entry {
            open: false,
            ..entry(deadline, 2)
        },
        &mut output,
    );
    assert!(!turn.audible, "the scope is not open");
    let late = deadline + Duration::from_millis(1);
    let (turn, _) = callback(&mut player.device, entry(late, 2), &mut output);
    assert!(!turn.audible, "the timing does not hold any more");
    let (turn, _) = callback(&mut player.device, entry(deadline, 2), &mut output);
    assert!(turn.audible);
    assert_eq!(output, [1, 2]);
    assert_eq!(
        owner.start_state(scope),
        Ok(StartState::BoundaryWon {
            start_at_zone_us: 100
        })
    );
}

#[test]
fn a_clear_gives_old_windows_back_from_a_silent_callback() {
    let (owner, scope, mut queue, mut player) = player();
    let publication = Arc::clone(&player.worker.publication);
    assert!(queue
        .try_enqueue_prepared(&publication, &owner, scope, input(0, &[1, 2, 3, 4]), 4)
        .is_ok());
    queue.force_reanchor = false;
    let never = |_: AnchorRequest| -> Option<i64> { unreachable!() };
    player.worker.keep_up(&mut queue, 0, never);
    assert_eq!(player.worker.prepare_windows(false), 1);
    player.device.state.started = true;
    player.device.state.floor_ns = Some(3);
    let gate = Arc::clone(&publication.control);
    gate.clear(gate.observe().unwrap()).unwrap();
    let mut output = [9; 2];
    let (turn, _) = callback(&mut player.device, entry(Instant::now(), 2), &mut output);
    assert!(!turn.audible);
    assert_eq!(turn.visible, 0);
    assert!(!player.device.state.started);
    assert_eq!(player.device.state.minimum_epoch, 1);
    assert_eq!(player.device.state.floor_ns, Some(0), "measured anew");
    assert_eq!(player.worker.reclaim(), 1);
}

#[test]
fn a_player_needs_a_format_and_its_scope() {
    let owner = RendererOwner::new(RendererQueueLimits::new(32, 8, 16).unwrap());
    let scope = owner.mint_scope().unwrap();
    let mut queue = PlaybackQueue::new();
    assert_eq!(
        build(&mut queue, 1_000, 0, &owner, scope, 0).err(),
        Some(BuildError::InvalidFormat)
    );
    assert_eq!(
        build(&mut queue, 1_000, usize::MAX, &owner, scope, 0).err(),
        Some(BuildError::TooLarge)
    );
    owner.teardown(scope);
    owner.mint_scope().unwrap();
    assert_eq!(
        build(&mut queue, 1_000, 1, &owner, scope, 0).err(),
        Some(BuildError::StaleScope)
    );
    assert_eq!(
        build(&mut queue, 1_000, 0, &owner, scope, 0).err(),
        Some(BuildError::StaleScope),
        "a stale scope comes first"
    );
    assert!(!queue.attached);
    assert_eq!(block_frames(0, 100), 1);
    assert_eq!(block_frames(48_000, 4_096), 960);
    assert_eq!(block_frames(48_000, 100), 100);
    assert_eq!(block_frames(10, 100), 1);
}

#[test]
fn the_worker_follows_generations_and_anchors() {
    let mut state = WorkerState::new(9);
    assert_eq!(state.applied_delay_us, 9);
    assert!(!state.take_event(event(1), Some(request(0))));
    assert_eq!(state.latest, None, "another generation is telemetry only");
    assert!(state.take_event(event(0), None));
    assert_eq!(state.anchor_request(false, 4), None);
    assert_eq!(state.anchor_request(true, 0), None, "an anchor needs a credit");
    assert_eq!(
        state.anchor_request(true, 1),
        Some(AnchorRequest {
            explicit: true,
            ahead_ns: 7,
            handoff_frames: 4,
        })
    );
    let playing = DeviceEvent {
        started: true,
        latency_floor_ns: Some(2),
        ..event(0)
    };
    assert!(state.take_event(playing, Some(request(0))));
    assert_eq!(
        state.anchor_request(false, 1),
        Some(AnchorRequest {
            explicit: false,
            ahead_ns: 2,
            handoff_frames: 0,
        })
    );
    state.anchored(false, 11, 5);
    let told = Some(FilteredError {
        serial: 1,
        raw_us: -90,
        filtered_us: -70,
    });
    let correction = state_request(false);
    state.note_anchor(state_request(true), told);
    assert_eq!(state.last_reanchor_error_us, None, "it corrects nothing");
    state.note_anchor(correction, told);
    assert_eq!(state.correction_reanchors, 1);
    assert_eq!(state.startup_reanchors, 0);
    assert_eq!(state.last_reanchor_error_us, Some(-70));
    assert_eq!(state.timeline, 5);
    assert_eq!(state.applied_delay_us, 11);
    assert_eq!(state.pending_reanchor, None);
    assert!(state.take_event(playing, Some(request(4))));
    assert_eq!(
        state.anchor_request(false, 1),
        None,
        "that was asked for on an older timeline"
    );
    assert!(!state.adopt_generation(0, 8));
    assert!(state.adopt_generation(2, 8));
    assert_eq!(state.timeline, 8);
    assert_eq!(state.latest, None);
    assert_eq!(state.pending_reanchor, None);
}

#[test]
fn the_view_of_the_source_is_kept_extended_or_made_anew() {
    let mut state = WorkerState::new(0);
    assert_eq!(state.refresh(true, 3, 2), Refresh::Wait);
    assert_eq!(state.refresh(false, 3, 2), Refresh::Rebuild);
    state.snapshot = Some(SnapshotKey {
        epoch: 3,
        next_source_id: 2,
    });
    assert_eq!(state.refresh(true, 3, 2), Refresh::Keep);
    assert_eq!(state.refresh(false, 3, 4), Refresh::Extend);
    assert_eq!(state.refresh(false, 4, 2), Refresh::Rebuild);
    assert!(!state.waits(true));
    assert!(state.waits(false));
}

#[test]
fn zone_times_are_checked() {
    assert_eq!(delayed(5, 7), Some(12));
    assert_eq!(delayed(i64::MAX, 1), None);
    assert_eq!(delayed(i64::MIN, u64::MAX), Some(i64::MAX));
    assert_eq!(boundary_zone(5, 7), Some(-2));
    assert_eq!(boundary_zone(i64::MIN, 1), None);
    assert_eq!(valid_limit(None), None);
    assert_eq!(valid_limit(Some(1)), Some(5_000_001));
    assert_eq!(valid_limit(Some(i64::MAX)), None);
    assert_eq!(boundary_of(None), 0);
    assert_eq!(
        boundary_of(Some(StartState::Armed {
            start_at_zone_us: 4
        })),
        4
    );
    assert!(timing_holds(true, false, false));
    assert!(timing_holds(true, true, true));
    assert!(!timing_holds(true, true, false));
    assert!(!timing_holds(false, false, true));
}

#[test]
fn the_device_counts_each_kind_of_fallback() {
    let mut counted = Diagnostics::of_rate(48_000);
    for reason in [
        TimestampFallback::Unavailable,
        TimestampFallback::Unsupported,
        TimestampFallback::Invalid,
        TimestampFallback::NonMonotonic,
        TimestampFallback::ClockDomainMismatch,
        TimestampFallback::Invalid,
    ] {
        counted.enter(10, 3, Some(8), Some(reason), NO_EVIDENCE);
    }
    counted.raw_error_us = Some(1);
    counted.filtered_error_us = Some(1);
    counted.enter(
        5,
        4,
        Some(2),
        None,
        Evidence {
            xrun_count: Some(6),
            buffer_size_frames: Some(256),
        },
    );
    assert_eq!(counted.output_xrun_count, Some(6));
    assert_eq!(counted.output_buffer_size_frames, Some(256));
    assert_eq!((counted.raw_error_us, counted.filtered_error_us), (None, None));
    assert_eq!(counted.callbacks, 7);
    assert_eq!(counted.requested_frames, 65);
    assert_eq!(counted.callback_frames, 5);
    assert_eq!(counted.max_callback_gap_us, 8);
    assert_eq!(counted.playback_delay_us, 4);
    assert_eq!(counted.fallback_unavailable, 1);
    assert_eq!(counted.fallback_unsupported, 1);
    assert_eq!(counted.fallback_invalid, 2);
    assert_eq!(counted.fallback_non_monotonic, 1);
    assert_eq!(counted.fallback_clock_domain_mismatch, 1);
    assert_eq!(counted.last_timestamp_fallback_callback, 6);
    counted.leave(false, true, 5, 0, CorrectionSchedule::default());
    assert_eq!((counted.silent_callbacks, counted.silent_frames), (1, 5));
    let applied = CorrectionSchedule {
        insert_every_n_frames: 12,
        ..CorrectionSchedule::default()
    };
    counted.underrun_frames = u64::MAX - 1;
    counted.leave(true, true, 5, 4, applied);
    assert_eq!(counted.insert_every, 12);
    assert_eq!(counted.underrun_frames, u64::MAX);
}

#[test]
fn the_output_keeps_its_lowest_latency() {
    let mut state = OutputState::new();
    assert_eq!(state.ahead(None, 20), 20);
    state.measure(Some(9));
    state.measure(Some(4));
    state.measure(Some(6));
    state.measure(None);
    assert_eq!(state.floor_ns, Some(4));
    assert_eq!(state.ahead(None, 20), 6);
    assert_eq!(state.ahead(Some(1), 20), 1);
    assert!(!state.start(true, true, false));
    assert!(!state.start(true, false, true));
    assert!(state.start(true, true, true));
    assert!(state.start(false, false, false), "a start stays");
    state.adopt(3);
    assert!(!state.started);
    assert_eq!(state.floor_ns, None);
    assert!(state.ready(false, 0));
    assert!(!state.ready(true, 0));
}

#[test]
fn a_start_is_presented_only_its_own_boundary() {
    let waiting = ScheduledStartOutcome::Waiting {
        start_at_zone_us: 7,
    };
    assert_eq!(presentation_for(waiting, true, 7, true), Some(7));
    assert_eq!(presentation_for(waiting, true, 7, false), None);
    assert_eq!(presentation_for(waiting, true, 8, true), None);
    assert_eq!(presentation_for(waiting, false, 7, true), None);
    assert_eq!(
        presentation_for(ScheduledStartOutcome::Unscheduled, true, 7, true),
        None
    );
    assert!(is_heard(ScheduledStartOutcome::Unscheduled));
    assert!(!is_heard(waiting));
    assert!(!is_heard(ScheduledStartOutcome::Closed));
}

#[test]
fn a_timing_comes_back() {
    let mailbox = TimingMailbox::new();
    assert!(mailbox.read().is_none());
    let now = Instant::now();
    let later = now + Duration::new(3, 999_999_999);
    let timing = Timing {
        epoch: 1,
        generation: 2,
        delay_us: 3,
        expected: Some(later),
        boundary: i64::MIN,
        boundary_deadline: None,
        valid_until: Some(now),
        valid: true,
        pending: false,
    };
    assert!(mailbox.publish(timing));
    let read = mailbox.read().unwrap();
    assert_eq!(read.epoch, 1);
    assert_eq!(read.generation, 2);
    assert_eq!(read.delay_us, 3);
    assert_eq!(read.expected, Some(later));
    assert_eq!(read.boundary, i64::MIN);
    assert_eq!(read.boundary_deadline, None);
    assert_eq!(read.valid_until, Some(now));
    assert!(read.valid && !read.pending);
    if let Some(before) = now.checked_sub(Duration::new(1, 1)) {
        assert!(mailbox.publish(Timing {
            expected: Some(before),
            ..timing
        }));
        assert_eq!(mailbox.read().unwrap().expected, Some(before));
    }
    for (valid, pending) in [(false, false), (true, false), (false, true), (true, true)] {
        assert_eq!(unpack_flags(pack_flags(valid, pending)), (valid, pending));
    }
    assert_eq!(pack_flags(true, true), 3);
}

#[test]
fn parts_are_added_up_or_not_at_all() {
    assert_eq!(add_up(&vec![]), Some(0));
    assert_eq!(add_up(&vec![Some(1), Some(2), Some(40)]), Some(43));
    assert_eq!(add_up(&vec![Some(1), None]), None);
    assert_eq!(add_up(&vec![Some(usize::MAX), Some(1)]), None);
    assert_eq!(arc_bytes::<u64>(), Some(24));
    assert_eq!(arc_bytes::<u8>(), Some(24));
}

#[test]
fn a_ring_carries_values_in_order_and_gives_back_what_does_not_fit() {
    let (mut tx, mut rx) = channel::<DeviceEvent>(2).unwrap();
    assert_eq!(rx.receive(), None);
    assert_eq!(tx.offer(event(1)), Ok(()));
    assert_eq!(tx.offer(event(2)), Ok(()));
    assert_eq!(tx.offer(event(3)), Err(event(3)));
    assert_eq!(rx.receive(), Some(event(1)));
    assert_eq!(tx.offer(event(4)), Ok(()));
    assert_eq!(rx.receive(), Some(event(2)));
    assert_eq!(rx.receive(), Some(event(4)));
    assert_eq!(rx.receive(), None);
    assert!(channel::<DeviceEvent>(usize::MAX).is_none());
    assert!(WINDOWS < OBSERVATIONS);
}

#[test]
fn instants_travel_as_distances() {
    let origin = Instant::now();
    let later = origin + Duration::new(2, 7);
    let absent = encode_instant(origin, None);
    assert_eq!(absent.kind, 0);
    assert_eq!(decode_instant(origin, absent), None);
    let words = encode_instant(origin, Some(later));
    assert_eq!(
        words,
        InstantWords {
            kind: 1,
            seconds: 2,
            nanos: 7
        }
    );
    assert_eq!(decode_instant(origin, words), Some(later));
    assert_eq!(
        encode_instant(later, Some(origin)),
        InstantWords { kind: 2, ..words }
    );
    let malformed = InstantWords {
        nanos: 1_000_000_000,
        ..words
    };
    assert_eq!(decode_instant(origin, malformed), None);
}

#[test]
fn a_scope_is_minted_once_the_last_one_has_ended() {
    let limits = RendererQueueLimits::new(32, 8, 16).unwrap();
    let mut book = Minted {
        id: 0,
        accounts: Accounts::new(limits),
    };
    let first = book.mint().unwrap();
    assert_eq!(first, PlayerScope { id: 1 });
    assert_eq!(book.mint(), None, "the first scope has not ended");
    assert_eq!(
        book.hold(first, 9, 2),
        RendererOperationOutcome::Applied
    );
    assert_eq!(book.accounts.high_frames, 9);
    assert_eq!(
        book.consume(PlayerScope { id: 7 }, 1),
        RendererOperationOutcome::StaleScope
    );
    assert_eq!(
        book.consume(first, 4),
        RendererOperationOutcome::Applied
    );
    assert_eq!(book.accounts.frames, 5);
    assert_eq!(book.close(first), RendererOperationOutcome::Applied);
    assert_eq!(book.close(first), RendererOperationOutcome::Closed);
    assert_eq!(book.consume(first, 1), RendererOperationOutcome::Closed);
    assert_eq!(book.enqueue(first, 1), EnqueueOutcome::Closed);
    let owner = RendererOwner::new(limits);
    let scope = owner.mint_scope().unwrap();
    let TerminalOutcome::Won(ended) = owner.teardown(scope) else {
        panic!("the first end wins")
    };
    book.accounts.finalization = Some(ended);
    assert_eq!(book.mint(), Some(PlayerScope { id: 2 }));
    assert!(!book.accounts.closed);
    book.id = u64::MAX;
    book.accounts.finalization = Some(ended);
    assert_eq!(book.mint(), None, "no scope is left");
}

#[test]
fn a_plan_says_what_a_player_takes() {
    let limits = RendererQueueLimits::new(32, 8, 16).unwrap();
    let plan = plan_player(limits, 48_000, 2).unwrap();
    assert_eq!((plan.frames, plan.samples), (16, 32));
    assert_eq!(plan.pipe.windows, WINDOWS + 1);
    assert_eq!(plan.pipe.frames_per_window, 16);
    assert_eq!(plan.pipe.frame_capacity_total, (WINDOWS + 1) * 16);
    assert!(plan.bytes > plan.pipe.window_payload_bytes);
    assert_eq!(
        plan_player(limits, 48_000, usize::MAX),
        Err(BuildError::TooLarge)
    );
    assert_eq!(plan_player(limits, 48_000, 0), Err(BuildError::InvalidFormat));
    let endless = RendererQueueLimits::new(usize::MAX, 8, 16).unwrap();
    assert_eq!(plan_player(endless, 48_000, 2), Err(BuildError::TooLarge));
    assert_eq!(
        plan_for(Err(RendererOperationOutcome::StaleScope), 48_000, 0),
        Err(BuildError::StaleScope)
    );
    let owner = RendererOwner::new(limits);
    let scope = owner.mint_scope().unwrap();
    assert_eq!(
        plan_for(owner.health(scope), 48_000, 2),
        Ok((limits, plan))
    );
}

#[test]
fn a_player_is_put_together_from_what_was_made() {
    let limits = RendererQueueLimits::new(32, 8, 16).unwrap();
    let owner = RendererOwner::new(limits);
    let scope = owner.mint_scope().unwrap();
    let plan = plan_player(limits, 1_000, 1).unwrap();
    let shared = || Publication::new(&owner, scope, 1, limits);
    let mut queue = PlaybackQueue::new();
    assert_eq!(
        assemble(&mut queue, limits, plan, None, shared(), 1_000, 1, &owner, scope, 0).err(),
        Some(BuildError::InvalidFormat)
    );
    let stale = Err(RendererOperationOutcome::StaleScope);
    let ends = pipe(WINDOWS, plan.frames, 1);
    assert_eq!(
        assemble(&mut queue, limits, plan, ends, stale, 1_000, 1, &owner, scope, 0).err(),
        Some(BuildError::StaleScope)
    );
    assert!(!queue.attached);
    let ends = pipe(WINDOWS, plan.frames, 1);
    let player = assemble(&mut queue, limits, plan, ends, shared(), 1_000, 1, &owner, scope, 7)
        .ok()
        .unwrap();
    assert!(queue.attached);
    assert_eq!(player.worker.producer.available_credits(), WINDOWS);
    assert_eq!(player.worker.state.applied_delay_us, 7);
    assert!(player.canonical_entries >= 8 && player.private_entries >= 8);
    assert!(queue.queue.capacity() >= 8 && player.worker.private.queue.capacity() >= 8);
    assert!(!player.device.state.started);
}

#[test]
fn a_player_goes_by_what_the_allocator_gave() {
    let limits = RendererQueueLimits::new(32, 8, 16).unwrap();
    let owner = RendererOwner::new(limits);
    let scope = owner.mint_scope().unwrap();
    let plan = plan_player(limits, 1_000, 1).unwrap();
    let with = |canonical: usize, private: usize, events: usize, last: usize| {
        put_together(
            limits,
            plan,
            pipe(WINDOWS, plan.frames, 1).unwrap(),
            Publication::new(&owner, scope, 1, limits).ok().unwrap(),
            PlaybackQueue::new(),
            Reader::new(1),
            channel::<DeviceEvent>(OBSERVATIONS).unwrap(),
            1_000,
            1,
            &owner,
            scope,
            7,
            canonical,
            private,
            events,
            last,
        )
    };
    let exact = with(8, 8, OBSERVATIONS, 1).ok().unwrap();
    assert_eq!((exact.canonical_entries, exact.private_entries), (8, 8));
    assert_eq!(exact.planned_bytes, plan.bytes);
    assert_eq!(exact.worker.state.applied_delay_us, 7);
    let more = with(9, 8, OBSERVATIONS, 1).ok().unwrap();
    assert!(more.allocated_bytes > exact.allocated_bytes);
    let longer = with(8, 8, OBSERVATIONS, 3).ok().unwrap();
    assert_eq!(longer.allocated_bytes, exact.allocated_bytes + 2 * std::mem::size_of::<i32>());
    for (canonical, private, events, last) in [
        (7, 8, OBSERVATIONS, 1),
        (8, 7, OBSERVATIONS, 1),
        (usize::MAX, 8, OBSERVATIONS, 1),
        (8, usize::MAX, OBSERVATIONS, 1),
        (8, 8, usize::MAX, 1),
        (8, 8, OBSERVATIONS, usize::MAX),
    ] {
        assert_eq!(
            with(canonical, private, events, last).err(),
            Some(BuildError::TooLarge)
        );
    }
}

#[test]
fn a_player_of_no_rate_has_blocks_of_one_frame() {
    let owner = RendererOwner::new(RendererQueueLimits::new(32, 8, 16).unwrap());
    let scope = owner.mint_scope().unwrap();
    let mut queue = PlaybackQueue::new();
    let mut player = build(&mut queue, 0, 2, &owner, scope, 0).ok().unwrap();
    assert_eq!(player.samples, 2);
    let window = player.worker.producer.builder_mut();
    assert_eq!((window.frames.len(), window.pcm.as_slice()), (1, &[0, 0][..]));
}

#[test]
fn windows_hold_what_the_source_gives() {
    let (owner, scope, mut queue, mut player) = player();
    let publication = Arc::clone(&player.worker.publication);
    for (timestamp, samples) in [(0, 1..=16), (16_000, 17..=18)] {
        let samples: Vec<i32> = samples.collect();
        let frames = samples.len();
        assert!(queue
            .try_enqueue_prepared(&publication, &owner, scope, input(timestamp, &samples), frames)
            .is_ok());
    }
    queue.force_reanchor = false;
    let never = |_: AnchorRequest| -> Option<i64> { unreachable!() };
    player.worker.keep_up(&mut queue, 0, never);
    assert_eq!(player.worker.prepare_windows(false), 2);
    let first = player.device.pipe.peek().unwrap();
    assert_eq!((first.epoch, first.source_base, first.valid), (0, 0, 16));
    assert_eq!(first.pcm, (1..=16).collect::<Vec<i32>>());
    assert!(player.device.pipe.retire());
    let second = player.device.pipe.peek().unwrap();
    assert_eq!((second.epoch, second.source_base, second.valid), (0, 16, 2));
    assert_eq!(second.pcm[..2], [17, 18]);
}

#[test]
fn the_window_kept_back_is_for_one_window_only() {
    let (owner, scope, mut queue, mut player) = player();
    let publication = Arc::clone(&player.worker.publication);
    for timestamp in [0, 16_000] {
        assert!(queue
            .try_enqueue_prepared(&publication, &owner, scope, input(timestamp, &[1; 16]), 16)
            .is_ok());
    }
    queue.force_reanchor = false;
    let never = |_: AnchorRequest| -> Option<i64> { unreachable!() };
    player.worker.keep_up(&mut queue, 0, never);
    for _ in 1..WINDOWS {
        assert!(player.worker.producer.publish());
    }
    assert_eq!(player.worker.producer.available_credits(), 1);
    assert_eq!(player.worker.prepare_windows(false), 0);
    assert_eq!(player.worker.prepare_windows(true), 1);
    assert_eq!(player.worker.producer.available_credits(), 0);
    assert_eq!(player.worker.prepare_windows(true), 0);
}

#[test]
fn delayed_events_only_report() {
    let mut state = WorkerState::new(0);
    state.startup_reanchors = 2;
    state.correction_reanchors = 3;
    state.last_reanchor_error_us = Some(-4);
    let delayed = DeviceEvent {
        feedback: Some(request(0)),
        ..event(1)
    };
    let told = Some(FilteredError {
        serial: 1,
        raw_us: 50,
        filtered_us: 40,
    });
    let before = state;
    assert_eq!(state.feedback_of(delayed), None);
    assert_eq!(state.telemetry_of(delayed, told), delayed.diagnostics);
    assert!(!state.take_event(delayed, Some(request(0))));
    assert_eq!(state, before);
    let published = state.reported(delayed.diagnostics);
    assert_eq!(published.startup_reanchors, 2);
    assert_eq!(published.correction_reanchors, 3);
    assert_eq!(published.last_reanchor_error_us, Some(-4));
    assert_eq!(published.generation, 1);
    let current = DeviceEvent {
        feedback: Some(request(0)),
        ..event(0)
    };
    assert_eq!(state.feedback_of(current), Some(request(0)));
    let report = state.telemetry_of(current, told);
    assert_eq!(
        (report.raw_error_us, report.filtered_error_us),
        (Some(50), Some(40))
    );
    let other = Some(FilteredError {
        serial: 9,
        ..told.unwrap()
    });
    assert_eq!(state.telemetry_of(current, other), current.diagnostics);
}

#[test]
fn a_callback_is_judged_by_when_it_is_heard() {
    let captured = Instant::now();
    let ms = Duration::from_millis;
    let timing = |expected, deadline, until| Timing {
        epoch: 0,
        generation: 0,
        delay_us: 0,
        expected,
        boundary: 0,
        boundary_deadline: deadline,
        valid_until: until,
        valid: true,
        pending: false,
    };
    let playback = playback_of(captured, 3_000_000);
    assert_eq!(playback, captured + ms(3));
    assert_eq!(
        answers_at(timing(None, None, None), captured, playback),
        (true, false, false)
    );
    let due = timing(Some(playback + ms(1)), Some(playback), Some(captured));
    assert_eq!(answers_at(due, captured, playback), (true, true, true));
    let early = timing(
        Some(playback + Duration::from_nanos(1_000_001)),
        Some(playback + Duration::from_nanos(1)),
        Some(captured),
    );
    assert_eq!(
        answers_at(early, captured + Duration::from_nanos(1), playback),
        (false, false, false)
    );
    assert_eq!(measured_latency(false, 5, 9), Some(4));
    assert_eq!(measured_latency(false, 9, 5), None);
    assert_eq!(measured_latency(true, 5, 9), None);
    assert_eq!(gap_since(None, captured), None);
    assert_eq!(gap_since(Some(captured), playback), Some(3_000));
    assert_eq!(gap_since(Some(playback), captured), Some(0));
}

#[test]
fn what_is_found_of_a_timing_decides() {
    let origin = Instant::now();
    let timing = Timing {
        epoch: 4,
        generation: 5,
        delay_us: 6,
        expected: Some(origin + Duration::new(1, 2)),
        boundary: -7,
        boundary_deadline: origin.checked_sub(Duration::from_nanos(3)),
        valid_until: None,
        valid: false,
        pending: true,
    };
    let words = encode_timing(origin, timing);
    assert_eq!(words.expected.nanos, 2);
    let found = find_timing(origin, 2, words, 2).unwrap();
    assert_eq!(found.expected, timing.expected);
    assert_eq!(found.boundary_deadline, timing.boundary_deadline);
    assert_eq!(found.valid_until, None);
    assert_eq!((found.epoch, found.boundary), (4, -7));
    assert!(find_timing(origin, 0, words, 0).is_none());
    assert!(find_timing(origin, 1, words, 1).is_none());
    assert!(find_timing(origin, 2, words, 4).is_none());
}

#[test]
fn a_shared_buffer_keeps_its_header() {
    let mut buffer = input(3, &[1]);
    buffer.format.codec_header = Some(vec![9, 8]);
    let copy = buffer.share();
    assert_eq!(copy.format, buffer.format);
    assert!(Arc::ptr_eq(&copy.samples, &buffer.samples));
}

#[test]
fn an_anchor_lies_ahead_by_the_output_and_a_callback() {
    let now = Instant::now();
    let request = AnchorRequest {
        explicit: true,
        ahead_ns: 5,
        handoff_frames: 3,
    };
    assert_eq!(
        anchor_instant(now, request, 1_000),
        Some(now + Duration::from_nanos(3_000_005))
    );
    assert_eq!(anchor_instant(now, request, 0), None);
    assert_eq!(frames_ns(1, 3), Some(333_333_333));
    assert_eq!(frames_ns(2, 3), Some(666_666_667), "to the nearest");
    assert_eq!(frames_ns(1, 1_024), Some(976_562), "half of one goes to the even one");
    assert_eq!(frames_ns(3, 1_024), Some(2_929_688));
    assert_eq!(frames_ns(usize::MAX, 1), None);
    assert_eq!(frames_ns(1, 0), None);
    assert_eq!(
        frames_duration(usize::MAX, 1),
        Some(Duration::from_secs(usize::MAX as u64))
    );
    assert_eq!(room_wanted(3, 8), 5);
    assert_eq!(room_wanted(9, 8), 0);
}

#[test]
fn the_device_is_told_of_time() {
    let now = Instant::now();
    let later = now + Duration::from_secs(1);
    let facts = TimingFacts {
        epoch: 1,
        generation: 2,
        delay_us: 3,
        cursor_us: Some(4),
        boundary: 5,
        boundary_zone: Some(2),
        pending: false,
    };
    let health = ModelHealth {
        synchronized: true,
        settled: true,
        last_valid_t4_us: Some(6),
    };
    let timing = timing_of(facts, Some(later), Some(now), now, health, Some(later));
    assert_eq!((timing.epoch, timing.generation, timing.delay_us), (1, 2, 3));
    assert_eq!((timing.boundary, timing.pending), (5, false));
    assert_eq!(timing.expected, Some(later));
    assert_eq!(timing.boundary_deadline, Some(now));
    assert!(timing.valid);
    assert!(!timing_of(facts, None, None, now, health, None).valid);
    let unknown = TimingFacts {
        cursor_us: None,
        boundary_zone: None,
        ..facts
    };
    let timing = timing_of(unknown, Some(later), None, now, health, Some(later));
    assert_eq!(timing.expected, None);
    assert_eq!(timing.boundary_deadline, Some(now), "it is due already");
}
