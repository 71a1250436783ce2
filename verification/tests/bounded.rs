use sendspin::audio::synced_player::handoff_probe::bounded::{
    copy_prepared, head_ends, head_plays, pipe_for, CreditSide, PreparedFrame, PreparedSource,
    SourceDevice,
};
use sendspin::audio::synced_player::queue::PlaybackQueue;
use sendspin::audio::{AudioBuffer, AudioFormat, Codec};
use std::sync::atomic::Ordering;
use std::sync::{Arc, Mutex};

fn source_pcm(samples: &[i32]) -> AudioBuffer {
    AudioBuffer {
        timestamp: 0,
        samples: Arc::from(samples),
        format: AudioFormat {
            codec: Codec::Pcm,
            sample_rate: 1_000,
            channels: 1,
            bit_depth: 24,
            codec_header: None,
        },
    }
}

fn pipe(limit: usize) -> (CreditSide<PreparedSource>, SourceDevice) {
    let (prepare, lane) = pipe_for::<PreparedSource>(limit).unwrap();
    (prepare, SourceDevice::new(lane))
}

#[test]
fn realtime_handoff_probe_partial_callback_invalidates_admission_snapshot() {
    let (mut prepare, mut device) = pipe(1);
    let prepared = PreparedSource::prepare(&source_pcm(&[1, 2, 3, 4]), 1, 0, &[1; 4]);
    assert!(prepare.publish(prepared).is_ok());
    let mut output = [0];
    assert_eq!(device.render(&mut output), Some(0));
    assert_eq!(output, [1]);
    let observation_gate = Arc::clone(&device.gate);
    let before_partial_consumption = observation_gate.observe().unwrap();
    assert_eq!(device.render(&mut output), Some(0));
    assert_eq!(output, [2]);
    assert!(device.gate.replace(before_partial_consumption).is_err());
    assert!(device.gate.replace(device.gate.observe().unwrap()).is_ok());
    let mut tail = [0; 2];
    assert_eq!(device.render(&mut tail), Some(0));
    assert_eq!(tail, [3, 4]);
    assert_eq!(prepare.reclaim(), 1);
}

#[test]
fn realtime_handoff_probe_inflight_read_prevents_clear_commit_without_blocking_pcm() {
    let (mut prepare, mut device) = pipe(1);
    let prepared = PreparedSource::prepare(&source_pcm(&[10, 20]), 1, 0, &[1; 2]);
    assert!(prepare.publish(prepared).is_ok());
    let gate = Arc::clone(&device.gate);
    let before = gate.observe().unwrap();
    let callback = gate.begin_callback().unwrap();
    assert!(gate.clear(before).is_err());
    assert!(gate.observe().is_none());
    assert!(gate.observe().is_none());
    let mut output = [0];
    assert_eq!(device.render_active(&callback, &mut output), 0);
    assert_eq!(output, [10]);
    drop(callback);
    assert!(gate.clear(gate.observe().unwrap()).is_ok());
    assert_eq!(device.render(&mut output), Some(1));
    assert_eq!(output, [0]);
    assert_eq!(device.progress.load(Ordering::Acquire), 1);
    assert_eq!(prepare.reclaim(), 1);
}

#[test]
fn realtime_handoff_probe_bounded_retirement_and_resume_do_not_drop_on_device() {
    let (mut prepare, mut device) = pipe(2);
    let witness = Arc::new(());
    for (id, samples) in [(1, [11, 12]), (2, [21, 22])] {
        let mut data = PreparedSource::prepare(&source_pcm(&samples), id, 0, &[1, 1]);
        data.lifetime = Some(Arc::clone(&witness));
        assert!(prepare.publish(data).is_ok());
    }
    let mut output = [0; 5];
    let missing = device.render(&mut output);
    assert_eq!(output, [11, 12, 21, 22, 0]);
    assert_eq!(missing, Some(1));
    assert_eq!(device.progress.load(Ordering::Acquire), 4);
    assert!(device.lane.return_pending(), "nothing is held");
    assert_eq!(Arc::strong_count(&witness), 3, "the device has freed none");
    assert_eq!(prepare.available_credits(), 0);
    // Both sources have come back whole: they are freed here.
    assert_eq!(prepare.reclaim(), 2);
    assert_eq!(Arc::strong_count(&witness), 1);
    assert_eq!(prepare.available_credits(), 2);
    let next = PreparedSource::prepare(&source_pcm(&[31, 32]), 3, 0, &[1, 1]);
    assert!(prepare.publish(next).is_ok());
    let mut resumed = [0; 2];
    assert_eq!(device.render(&mut resumed), Some(0));
    assert_eq!(resumed, [31, 32]);
    assert_eq!(device.progress.load(Ordering::Acquire), 6);
    assert_eq!(prepare.reclaim(), 1);
}

#[test]
fn realtime_handoff_probe_bounded_revoked_slot_does_not_block_new_pcm() {
    let (mut prepare, mut device) = pipe(2);
    let old = PreparedSource::prepare(&source_pcm(&[1, 2]), 1, 0, &[1, 1]);
    assert!(prepare.publish(old).is_ok());
    device.gate.replace(device.gate.observe().unwrap()).unwrap();
    let replacement = PreparedSource::prepare(&source_pcm(&[20, 21]), 2, 1, &[1, 1]);
    assert!(prepare.publish(replacement).is_ok());
    let mut output = [0; 2];
    assert_eq!(device.render(&mut output), Some(0));
    assert_eq!(output, [20, 21]);
    assert_eq!(device.progress.load(Ordering::Acquire), 2);
    assert_eq!(prepare.reclaim(), 2);
}

#[test]
fn realtime_handoff_probe_bounded_clear_discards_current_tail_and_pending() {
    let (mut prepare, mut device) = pipe(3);
    for (id, samples) in [(1, [1, 2, 3]), (2, [11, 12, 13])] {
        let data = PreparedSource::prepare(&source_pcm(&samples), id, 0, &[1, 1, 1]);
        assert!(prepare.publish(data).is_ok());
    }
    let mut first = [0];
    assert_eq!(device.render(&mut first), Some(0));
    assert_eq!(first, [1]);
    device.gate.clear(device.gate.observe().unwrap()).unwrap();
    let new = PreparedSource::prepare(&source_pcm(&[30, 31]), 3, 1, &[1, 1]);
    assert!(prepare.publish(new).is_ok());
    let mut output = [0; 2];
    assert_eq!(device.render(&mut output), Some(0));
    assert_eq!(output, [30, 31]);
    assert_eq!(device.progress.load(Ordering::Acquire), 3);
    assert_eq!(prepare.reclaim(), 3);
    assert_eq!(device.gate.view().current(), 0);
    assert!(!device.gate.view().current_revoked());
}

#[test]
fn realtime_handoff_probe_bounded_quiescent_drop_needs_no_future_render() {
    let (mut prepare, mut device) = pipe(2);
    let witness = Arc::new(());
    for id in [1, 2] {
        let mut data = PreparedSource::prepare(&source_pcm(&[1, 2]), id, 0, &[1, 1]);
        data.lifetime = Some(Arc::clone(&witness));
        assert!(prepare.publish(data).is_ok());
    }
    let mut one = [0];
    device.render(&mut one);
    assert_eq!(device.progress.load(Ordering::Acquire), 1);
    device.gate.clear(device.gate.observe().unwrap()).unwrap();
    assert_eq!(Arc::strong_count(&witness), 3);
    // Both ends go without a callback that would drain what is invalid.
    drop(device);
    drop(prepare);
    assert_eq!(Arc::strong_count(&witness), 1);
}

#[test]
fn realtime_handoff_probe_pcm_drains_while_source_queue_owner_is_paused() {
    let mut source_queue = PlaybackQueue::new();
    source_queue.push(source_pcm(&[11, 12, 13, 14]));
    let prepared = PreparedSource::prepare(&source_queue.queue[0].buffer, 1, 0, &[1, 1, 1, 1]);
    assert_eq!(source_queue.queued_frames(1), 4);
    let source_queue = Mutex::new(source_queue);
    let held = source_queue.lock().unwrap();
    let (mut prepare, mut device) = pipe(1);
    assert!(prepare.publish(prepared).is_ok());
    let mut output = [0; 6];
    let missing = device.render(&mut output);
    drop(held);
    assert_eq!(missing, Some(2));
    assert_eq!(output, [11, 12, 13, 14, 0, 0]);
    assert_eq!(device.progress.load(Ordering::Acquire), 4);
    // Preparing and rendering this immutable view have not silently consumed the
    // source queue.
    assert_eq!(source_queue.lock().unwrap().queued_frames(1), 4);
}

#[test]
fn realtime_handoff_probe_clear_empty_then_claim_preserves_new_source_tail() {
    let (mut prepare, mut device) = pipe(1);
    let cleared = device.gate.clear(device.gate.observe().unwrap()).unwrap();
    let prepared = PreparedSource::prepare(&source_pcm(&[10, 20]), 1, cleared.epoch(), &[1, 1]);
    assert!(prepare.publish(prepared).is_ok());
    let mut output = [0];
    assert_eq!(device.render(&mut output), Some(0));
    assert_eq!(output, [10]);
    assert_eq!(device.render(&mut output), Some(0));
    assert_eq!(output, [20]);
    assert_eq!(device.progress.load(Ordering::Acquire), 2);
}

#[test]
fn a_source_is_prepared_step_by_step() {
    let frame = |sample, consumed| PreparedFrame { sample, consumed };
    let prepared = PreparedSource::prepare(&source_pcm(&[10, 20, 30, 40]), 7, 3, &[1, 0, 2, 1, 1]);
    assert_eq!(prepared.source, 7);
    assert_eq!(prepared.epoch, 3);
    assert_eq!(
        prepared.frames,
        [
            frame(10, 1),
            frame(10, 0),
            frame(30, 2),
            frame(40, 1),
            frame(40, 0),
        ]
    );
    let late = PreparedSource::prepare_from_cursor(&source_pcm(&[1, 2, 3]), 1, 0, &[1, 1], 2_000);
    assert_eq!(late.frames, [frame(3, 1), frame(3, 0)]);
    let mut output = [9; 3];
    assert_eq!(copy_prepared(&prepared, 3, &mut output), (2, 1));
    assert_eq!(output, [40, 40, 0]);
    assert_eq!(copy_prepared(&prepared, 5, &mut output), (0, 0));
    assert_eq!(output, [0, 0, 0]);
}

#[test]
fn what_is_found_at_a_source_decides() {
    assert!(head_plays(true, 0, false, false));
    assert!(!head_plays(true, 7, true, true));
    assert!(head_plays(false, 7, true, true));
    assert!(!head_plays(false, 0, false, true), "it has no identity");
    assert!(!head_plays(false, 7, false, false));
    let prepared = PreparedSource::prepare(&source_pcm(&[1, 2]), 1, 4, &[1, 1]);
    assert!(!head_ends(true, &prepared, 1, 9), "it is claimed");
    assert!(head_ends(true, &prepared, 2, 4));
    assert!(!head_ends(false, &prepared, 1, 4));
    assert!(head_ends(false, &prepared, 0, 5), "it is of another version");
}

#[test]
fn a_device_plays_all_that_has_arrived_until_its_output_is_full() {
    let (mut prepare, mut device) = pipe(3);
    for (id, samples) in [(1, [1, 2]), (2, [3, 4]), (3, [5, 6])] {
        let data = PreparedSource::prepare(&source_pcm(&samples), id, 0, &[1, 1]);
        assert!(prepare.publish(data).is_ok());
    }
    let mut output = [0; 5];
    assert_eq!(device.render(&mut output), Some(0));
    assert_eq!(output, [1, 2, 3, 4, 5]);
    assert_eq!(device.lane.offset(), 1);
    assert!(device.claimed);
    assert_eq!(prepare.reclaim(), 2, "only what is over is given back");
    assert_eq!(device.render(&mut output), Some(4));
    assert_eq!(output, [6, 0, 0, 0, 0]);
    assert!(!device.claimed);
    assert_eq!(device.lane.offset(), 0);
    assert_eq!(prepare.reclaim(), 1);
}

#[test]
fn credits_bound_what_is_published() {
    let (mut prepare, mut device) = pipe(1);
    let one = || PreparedSource::prepare(&source_pcm(&[5]), 1, 0, &[1]);
    assert_eq!(prepare.reclaim(), 0);
    assert!(prepare.publish(one()).is_ok());
    let back = prepare.publish(one()).unwrap_err();
    assert_eq!(back.frames.len(), 1);
    let mut output = [0];
    assert_eq!(device.render(&mut output), Some(0));
    assert!(prepare.publish(one()).is_err(), "its credit is not back yet");
    assert_eq!(prepare.reclaim(), 1);
    assert!(prepare.publish(one()).is_ok());
}

#[test]
fn a_second_callback_is_turned_away() {
    let (_prepare, mut device) = pipe(1);
    let gate = Arc::clone(&device.gate);
    let callback = gate.begin_callback().unwrap();
    let mut output = [7];
    assert_eq!(device.render(&mut output), None);
    assert_eq!(output, [7]);
    drop(callback);
    assert_eq!(device.render(&mut output), Some(1));
    assert_eq!(output, [0]);
}
