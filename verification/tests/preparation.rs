use sendspin::audio::synced_player::preparation::Window;
use sendspin::audio::synced_player::queue::PlaybackQueue;
use sendspin::audio::{AudioBuffer, AudioFormat, Codec};
use std::sync::Arc;

fn source(timestamp: i64, samples: &[i32]) -> AudioBuffer {
    AudioBuffer {
        timestamp,
        samples: Arc::from(samples),
        format: AudioFormat {
            codec: Codec::Pcm,
            sample_rate: 1_000,
            channels: 1,
            bit_depth: 24,
            codec_header: None,
        },
    }
}

#[test]
fn renderer_realtime_preparation_reconciles_timestamp_order_without_pcm_replay() {
    let mut canonical = PlaybackQueue::new();
    canonical.push(source(0, &[1, 2]));
    canonical.push(source(4_000, &[5, 6]));
    canonical.push(source(2_000, &[3, 4]));
    let mut private = PlaybackQueue::new();
    private.queue.reserve(3);
    canonical.copy_source_into(&mut private);
    let mut window = Window::new(4, 1).unwrap();
    let pcm_allocation = window.pcm.as_ptr();
    let metadata_allocation = window.frames.as_ptr();
    private.prepare_window(&mut window, 7, 0, 1, 1_000);
    assert_eq!(window.valid, 4);
    assert_eq!(&window.pcm[..4], &[1, 2, 3, 4]);
    assert_eq!(
        canonical.queued_frames(1),
        6,
        "preparation is not consumption"
    );
    canonical.reconcile_source(window.frames[3].position);
    assert_eq!(canonical.queued_frames(1), 2);
    assert_eq!(canonical.cursor_us, 4_000);
    canonical.copy_source_into(&mut private);
    private.prepare_window(&mut window, 8, 4, 1, 1_000);
    assert_eq!(window.valid, 2);
    assert_eq!(&window.pcm[..2], &[5, 6]);
    assert_eq!(window.pcm.as_ptr(), pcm_allocation);
    assert_eq!(window.frames.as_ptr(), metadata_allocation);
    assert_eq!(window.source_base, 4);
    canonical.reconcile_source(window.frames[1].position);
    assert_eq!(canonical.queued_frames(1), 0);
    canonical.clear();
    canonical.push(source(0, &[9]));
    assert_eq!(canonical.queue.front().unwrap().source_id, 4);
}

#[test]
fn renderer_realtime_preparation_publishes_stale_retirement_without_fake_consumption() {
    let mut canonical = PlaybackQueue::new();
    canonical.push(source(0, &[1, 2]));
    canonical.cursor_us = 10_000;
    let mut private = PlaybackQueue::new();
    private.queue.reserve(1);
    canonical.copy_source_into(&mut private);
    let mut window = Window::new(2, 1).unwrap();
    private.prepare_window(&mut window, 1, 0, 1, 1_000);
    assert_eq!(window.valid, 0);
    let skipped = window.skipped_tail.unwrap();
    assert_eq!(skipped.position.retired_through, 1);
    assert_eq!(skipped.position.cursor_us, 10_000);
    canonical.reconcile_source(skipped.position);
    assert_eq!(canonical.queued_frames(1), 0);
    assert_eq!(canonical.cursor_us, 10_000);
}

#[test]
fn every_position_of_a_window_restores_the_source() {
    let build = || {
        let mut queue = PlaybackQueue::new();
        queue.push(source(0, &[1, 2, 3]));
        queue.push(source(3_000, &[4, 5]));
        queue.push(source(9_000, &[6]));
        queue
    };
    let mut private = build();
    let mut window = Window::new(8, 1).unwrap();
    private.prepare_window(&mut window, 0, 0, 1, 1_000);
    assert_eq!(window.valid, 6);
    for k in 0..window.valid {
        let mut canonical = build();
        assert!(canonical.holds_position(window.frames[k].position));
        canonical.reconcile_source(window.frames[k].position);
        let mut rest = Window::new(8, 1).unwrap();
        canonical.prepare_window(&mut rest, 0, 0, 1, 1_000);
        assert_eq!(rest.valid, 6 - (k + 1));
        assert_eq!(&rest.pcm[..rest.valid], &window.pcm[k + 1..window.valid]);
    }
}

#[test]
fn a_position_of_another_source_is_not_held() {
    let mut queue = PlaybackQueue::new();
    queue.push(source(0, &[1, 2, 3]));
    let mut position = queue.source_position();
    position.retired_through = 9;
    assert!(!queue.holds_position(position));
    position.retired_through = 0;
    position.current = 9;
    assert!(!queue.holds_position(position));
    position.current = 1;
    assert!(queue.holds_position(position));
}

#[test]
fn a_new_buffer_replaces_what_it_overlaps() {
    let mut queue = PlaybackQueue::new();
    queue.push(source(0, &[1, 2]));
    queue.push(source(2_000, &[3, 4]));
    queue.push(source(4_000, &[5, 6]));
    queue.push(source(1_000, &[7, 8]));
    assert_eq!(queue.queued_frames(1), 4);
    assert_eq!(queue.buffer_count(), 2);
    let ids: Vec<u64> = queue.queue.iter().map(|entry| entry.source_id).collect();
    assert_eq!(ids, vec![4, 3]);
    assert!(!queue.appends(&source(5_000, &[9])));
    assert!(queue.appends(&source(6_000, &[9])));
}

#[test]
fn the_cursor_keeps_its_remainder() {
    let mut queue = PlaybackQueue::new();
    let mut buffer = source(0, &[0; 44_101]);
    buffer.format.sample_rate = 44_100;
    queue.push(buffer);
    for _ in 0..44_100 {
        assert!(queue.consume_next_frame(1, 44_100, None));
    }
    assert_eq!(queue.cursor_us, 1_000_000);
    assert_eq!(queue.cursor_remainder, 0);
    assert!(queue.consume_next_frame(1, 44_100, None));
    assert_eq!(queue.cursor_us, 1_000_022);
}

#[test]
fn a_gap_moves_the_cursor_and_a_late_start_skips_frames() {
    let mut queue = PlaybackQueue::new();
    queue.push(source(0, &[1]));
    queue.push(source(5_000, &[2, 3, 4]));
    let mut sample = [0];
    assert!(queue.consume_next_frame(1, 1_000, Some(&mut sample)));
    assert_eq!((sample, queue.cursor_us), ([1], 1_000));
    assert!(queue.consume_next_frame(1, 1_000, Some(&mut sample)));
    assert_eq!((sample, queue.cursor_us), ([2], 6_000));

    let mut late = PlaybackQueue::new();
    late.push(source(0, &[1, 2, 3]));
    late.cursor_us = 2_500;
    assert!(late.consume_next_frame(1, 1_000, Some(&mut sample)));
    assert_eq!(sample, [3]);
    assert!(!late.consume_next_frame(1, 1_000, Some(&mut sample)));
    assert_eq!(sample, [3], "without a frame the destination stays");
}

#[test]
fn the_first_playable_time_is_found() {
    let mut queue = PlaybackQueue::new();
    queue.push(source(100_000, &[1, 2]));
    queue.push(source(300_000, &[3, 4]));
    assert_eq!(queue.first_playable_cursor_at_or_after(0), Some(100_000));
    assert_eq!(
        queue.first_playable_cursor_at_or_after(101_000),
        Some(101_000)
    );
    assert_eq!(
        queue.first_playable_cursor_at_or_after(200_000),
        Some(300_000)
    );
    assert_eq!(queue.first_playable_cursor_at_or_after(400_000), None);
}

#[test]
fn a_window_needs_dimensions() {
    assert!(Window::new(0, 1).is_none());
    assert!(Window::new(1, 0).is_none());
    assert!(Window::new(usize::MAX, 2).is_none());
    assert!(Window::new(usize::MAX / 8, 1).is_none());
}

#[test]
fn stereo_frames_stay_together() {
    let mut queue = PlaybackQueue::new();
    let mut buffer = source(0, &[1, 101, 2, 102]);
    buffer.format.channels = 2;
    queue.push(buffer);
    assert_eq!(queue.queued_frames(2), 2);
    let mut window = Window::new(3, 2).unwrap();
    queue.prepare_window(&mut window, 0, 0, 2, 1_000);
    assert_eq!(window.valid, 2);
    assert_eq!(window.pcm, vec![1, 101, 2, 102, 0, 0]);
    assert!(window.frames[0].requires_epoch);
    assert!(!window.frames[1].requires_epoch);
}
