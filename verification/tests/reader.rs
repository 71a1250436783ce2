use sendspin::audio::sync_correction::CorrectionSchedule;
use sendspin::audio::synced_player::ingress::checkpoint::PublishedCheckpoint;
use sendspin::audio::synced_player::ingress::ControlGate;
use sendspin::audio::synced_player::queue::PlaybackQueue;
use sendspin::audio::synced_player::reader::Reader;
use sendspin::audio::synced_player::transport;
use sendspin::audio::{AudioBuffer, AudioFormat, Codec};
use std::sync::atomic::{AtomicU64, Ordering};
use std::sync::Arc;

fn source(samples: &[i32]) -> AudioBuffer {
    AudioBuffer {
        timestamp: 0,
        samples: Arc::from(samples),
        format: AudioFormat {
            codec: Codec::Pcm,
            sample_rate: 1_000,
            channels: 1,
            bit_depth: 24,
            codec_header: None,
        },
    }
}

/// The schedule for an error of ten milliseconds at a thousand frames a second:
/// one frame in five hundred.
fn plan(error: i64) -> CorrectionSchedule {
    CorrectionSchedule {
        insert_every_n_frames: if error < 0 { 500 } else { 0 },
        drop_every_n_frames: if error > 0 { 500 } else { 0 },
        reanchor: false,
    }
}

#[test]
fn renderer_realtime_reader_fixed_blocks_share_one_ready_budget() {
    let (mut producer, mut device) = transport::pipe(1, 1, 1).unwrap();
    let mut queue = PlaybackQueue::new();
    queue.push(source(&[11, 22]));
    queue.prepare_window(producer.builder_mut(), 0, 0, 1, 1_000);
    assert!(producer.publish());
    let gate = ControlGate::default();
    let checkpoint = PublishedCheckpoint::new();
    let progress = AtomicU64::new(0);
    let mut reader = Reader::new(1);
    let callback = gate.begin_callback().unwrap();
    assert!(device.return_pending());
    let mut visible = device.visible();
    let mut output = [0];
    reader.render_with_budget(
        &mut device,
        &callback,
        &checkpoint,
        &progress,
        &mut output,
        false,
        Some(CorrectionSchedule::default()),
        &mut visible,
    );
    assert_eq!(output, [11]);
    assert_eq!(visible, 0);
    assert_eq!(producer.reclaim(), 1);
    queue.prepare_window(producer.builder_mut(), 0, 1, 1, 1_000);
    assert!(producer.publish());
    reader.render_with_budget(
        &mut device,
        &callback,
        &checkpoint,
        &progress,
        &mut output,
        false,
        Some(CorrectionSchedule::default()),
        &mut visible,
    );
    assert_eq!(
        output,
        [0],
        "a scratch block cannot replenish the callback's work budget"
    );
    assert_eq!(progress.load(Ordering::Acquire), 1);
    drop(callback);
    reader.render(
        &mut device,
        &gate.begin_callback().unwrap(),
        &checkpoint,
        &progress,
        &mut output,
        false,
        Some(CorrectionSchedule::default()),
    );
    assert_eq!(output, [22]);
    assert_eq!(progress.load(Ordering::Acquire), 2);
}

#[test]
fn renderer_realtime_reader_fallback_preserves_pcm_and_actual_cadence() {
    for error in [10_000, -10_000] {
        let (mut producer, mut device) = transport::pipe(1, 503, 1).unwrap();
        let mut queue = PlaybackQueue::new();
        queue.push(source(&(1..=503).collect::<Vec<i32>>()));
        queue.prepare_window(producer.builder_mut(), 0, 0, 1, 1_000);
        assert!(producer.publish());
        let gate = ControlGate::default();
        let checkpoint = PublishedCheckpoint::new();
        let progress = AtomicU64::new(0);
        let mut reader = Reader::new(1);
        let plan = plan(error);
        let mut prefix = [0; 499];
        reader.render(
            &mut device,
            &gate.begin_callback().unwrap(),
            &checkpoint,
            &progress,
            &mut prefix,
            true,
            Some(plan),
        );
        assert_eq!(prefix, std::array::from_fn(|i| i as i32 + 1));
        let mut single = [0];
        reader.render(
            &mut device,
            &gate.begin_callback().unwrap(),
            &checkpoint,
            &progress,
            &mut single,
            false,
            Some(CorrectionSchedule::default()),
        );
        assert_eq!(single, [500]);
        assert_eq!(progress.load(Ordering::Acquire), 500);
        reader.render(
            &mut device,
            &gate.begin_callback().unwrap(),
            &checkpoint,
            &progress,
            &mut single,
            true,
            Some(plan),
        );
        assert_eq!(single, if error > 0 { [502] } else { [500] });
        assert_eq!(
            progress.load(Ordering::Acquire),
            if error > 0 { 502 } else { 500 }
        );
        // The notice is sufficient even before the checkpoint is invalidated; no
        // old last frame may survive to repeat on clear.
        gate.clear(gate.observe().unwrap()).unwrap();
        let cleared = reader.render(
            &mut device,
            &gate.begin_callback().unwrap(),
            &checkpoint,
            &progress,
            &mut single,
            false,
            Some(plan),
        );
        assert_eq!(single, [0]);
        assert_eq!(cleared.missing, 1);
        assert_eq!(cleared.consumed, 0);
        assert_eq!(producer.reclaim(), 1);
    }
}

#[test]
fn a_rebuilt_window_repeats_nothing() {
    let (mut producer, mut device) = transport::pipe(2, 4, 1).unwrap();
    let mut queue = PlaybackQueue::new();
    queue.push(source(&[1, 2, 3, 4]));
    let mut again = PlaybackQueue::new();
    queue.copy_source_into(&mut again);
    queue.prepare_window(producer.builder_mut(), 0, 0, 1, 1_000);
    assert!(producer.publish());
    again.prepare_window(producer.builder_mut(), 0, 0, 1, 1_000);
    assert!(producer.publish());
    let gate = ControlGate::default();
    let checkpoint = PublishedCheckpoint::new();
    let progress = AtomicU64::new(0);
    let mut reader = Reader::new(1);
    let mut output = [9; 6];
    let rendered = reader.render(
        &mut device,
        &gate.begin_callback().unwrap(),
        &checkpoint,
        &progress,
        &mut output,
        true,
        Some(CorrectionSchedule::default()),
    );
    assert_eq!(output, [1, 2, 3, 4, 0, 0]);
    assert_eq!(rendered.consumed, 4);
    assert_eq!(rendered.missing, 2);
    assert_eq!(rendered.source_cursor_us, Some(0));
}

#[test]
fn a_cleared_timeline_does_not_resume_an_old_window() {
    let (mut producer, mut device) = transport::pipe(2, 4, 1).unwrap();
    let mut queue = PlaybackQueue::new();
    queue.push(source(&[1, 2, 3, 4]));
    queue.prepare_window(producer.builder_mut(), 0, 0, 1, 1_000);
    assert!(producer.publish());
    let gate = ControlGate::default();
    let checkpoint = PublishedCheckpoint::new();
    let progress = AtomicU64::new(0);
    let mut reader = Reader::new(1);
    let mut output = [0; 2];
    let steady = Some(CorrectionSchedule::default());
    reader.render(
        &mut device,
        &gate.begin_callback().unwrap(),
        &checkpoint,
        &progress,
        &mut output,
        true,
        steady,
    );
    assert_eq!(output, [1, 2]);
    let cleared = gate.clear(gate.observe().unwrap()).unwrap();
    {
        let callback = gate.begin_callback().unwrap();
        assert_eq!(reader.timeline(&callback), cleared.epoch());
        let rendered = reader.render(
            &mut device,
            &callback,
            &checkpoint,
            &progress,
            &mut output,
            true,
            steady,
        );
        assert_eq!(output, [0, 0]);
        assert_eq!((rendered.consumed, rendered.missing), (0, 2));
    }
    assert_eq!(producer.reclaim(), 1);
    assert_eq!(progress.load(Ordering::Acquire), 2);
}

#[test]
fn a_plan_is_taken_over_only_under_a_measured_timestamp() {
    let (_producer, mut device) = transport::pipe(1, 1, 1).unwrap();
    let gate = ControlGate::default();
    let checkpoint = PublishedCheckpoint::new();
    let progress = AtomicU64::new(0);
    let mut reader = Reader::new(1);
    assert!(reader.last_capacity() >= 1);
    let mut output = [0];
    let wanted = plan(10_000);
    for (measured, plan, expected) in [
        (false, Some(wanted), CorrectionSchedule::default()),
        (true, Some(wanted), wanted),
        (false, Some(CorrectionSchedule::default()), wanted),
        (false, None, CorrectionSchedule::default()),
    ] {
        reader.render(
            &mut device,
            &gate.begin_callback().unwrap(),
            &checkpoint,
            &progress,
            &mut output,
            measured,
            plan,
        );
        assert_eq!(reader.schedule(), expected);
    }
}

#[test]
fn the_frames_of_a_rendering_balance() {
    for (insert, drop, expected) in [
        (0, 0, [1, 2, 3, 4, 5, 6, 0, 0]),
        (3, 0, [1, 2, 2, 3, 4, 4, 5, 6]),
        (0, 3, [1, 2, 4, 5, 6, 6, 0, 0]),
    ] {
        let (mut producer, mut device) = transport::pipe(1, 6, 1).unwrap();
        let mut queue = PlaybackQueue::new();
        queue.push(source(&[1, 2, 3, 4, 5, 6]));
        queue.prepare_window(producer.builder_mut(), 0, 0, 1, 1_000);
        assert!(producer.publish());
        let gate = ControlGate::default();
        let progress = AtomicU64::new(0);
        let mut output = [9; 8];
        let rendered = Reader::new(1).render(
            &mut device,
            &gate.begin_callback().unwrap(),
            &PublishedCheckpoint::new(),
            &progress,
            &mut output,
            true,
            Some(CorrectionSchedule {
                insert_every_n_frames: insert,
                drop_every_n_frames: drop,
                reanchor: false,
            }),
        );
        assert_eq!(output, expected);
        let shown = rendered.consumed as usize + rendered.inserted + rendered.missing;
        assert!(shown <= 8 + rendered.dropped);
        if drop == 0 {
            assert_eq!(shown, 8);
            assert_eq!(rendered.dropped, 0);
        }
    }
}

#[test]
fn a_rendering_after_a_clear_is_silent() {
    let (mut producer, mut device) = transport::pipe(2, 2, 1).unwrap();
    let mut queue = PlaybackQueue::new();
    queue.push(source(&[5, 6, 7, 8]));
    for base in [0, 2] {
        queue.prepare_window(producer.builder_mut(), 0, base, 1, 1_000);
        assert!(producer.publish());
    }
    let gate = ControlGate::default();
    gate.clear(gate.observe().unwrap()).unwrap();
    let progress = AtomicU64::new(0);
    let mut output = [9; 3];
    Reader::new(1).render(
        &mut device,
        &gate.begin_callback().unwrap(),
        &PublishedCheckpoint::new(),
        &progress,
        &mut output,
        true,
        Some(CorrectionSchedule::default()),
    );
    assert_eq!(output, [0; 3]);
    assert_eq!(progress.load(Ordering::Acquire), 0);
    assert_eq!(producer.reclaim(), 2, "old windows come back");
    assert_eq!(producer.available_credits(), 2, "and none is lost");
}
