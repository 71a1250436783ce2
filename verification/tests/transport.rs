use sendspin::audio::synced_player::transport::{account, pipe, planned, PrepareSide};

fn prepare(side: &mut PrepareSide, sample: i32) {
    let window = side.builder_mut();
    window.pcm[0] = sample;
    window.valid = 1;
}

#[test]
fn renderer_realtime_transport_paused_reclaimer_preserves_builder_and_resumes() {
    let (mut producer, mut device) = pipe(2, 2, 1).unwrap();
    prepare(&mut producer, 11);
    assert!(producer.publish());
    prepare(&mut producer, 22);
    assert!(producer.publish());
    prepare(&mut producer, 33);
    assert!(!producer.publish());
    let mut output = [0; 2];
    assert!(device.return_pending());
    let visible = device.visible();
    assert_eq!(visible, 2);
    for sample in output.iter_mut().take(visible) {
        *sample = device.peek().unwrap().pcm[device.offset()];
        device.advance(1);
        assert!(device.retire());
    }
    assert_eq!(output, [11, 22]);
    assert!(
        !producer.publish(),
        "retired ownership still consumes credits"
    );
    assert_eq!(producer.builder_mut().pcm[0], 33);
    assert_eq!(producer.reclaim(), 2);
    assert!(producer.publish());
    assert_eq!(device.peek().unwrap().pcm[0], 33);
    assert!(device.retire());
    assert_eq!(producer.reclaim(), 1);
}

#[test]
fn renderer_realtime_transport_partial_window_keeps_offset_until_retirement() {
    let (mut producer, mut device) = pipe(1, 2, 1).unwrap();
    let window = producer.builder_mut();
    window.pcm.copy_from_slice(&[11, 22]);
    window.valid = 2;
    assert!(producer.publish());
    assert_eq!(device.peek().unwrap().pcm[device.offset()], 11);
    device.advance(1);
    // A second device invocation resumes the same window, without taking
    // another credit or changing its offset when a return is unnecessary.
    assert!(device.return_pending());
    assert_eq!(device.visible(), 1);
    assert_eq!(device.peek().unwrap().pcm[device.offset()], 22);
    device.advance(1);
    assert!(device.retire());
    assert_eq!(device.offset(), 0);
    assert_eq!(producer.reclaim(), 1);
    prepare(&mut producer, 33);
    assert!(producer.publish());
    assert_eq!(device.peek().unwrap().pcm[device.offset()], 33);
}

#[test]
fn renderer_realtime_transport_rejects_unrepresentable_configuration() {
    assert!(pipe(0, 1, 1).is_none());
    assert!(pipe(1, 0, 1).is_none());
    assert!(pipe(1, 1, 0).is_none());
    assert!(pipe(usize::MAX, 1, 1).is_none());
    assert!(pipe(1, usize::MAX, 2).is_none());
}

#[test]
fn the_account_of_a_pipe_adds_up() {
    let (producer, _device) = pipe(3, 5, 2).unwrap();
    let account = producer.allocation();
    assert_eq!(account.windows, 4);
    assert_eq!(account.frames_per_window, 5);
    assert_eq!(account.samples_per_window, 10);
    assert_eq!(account.ready_capacity, 3);
    assert_eq!(account.retired_capacity, 3);
    assert!(account.frame_capacity_total >= 20);
    assert!(account.sample_capacity_total >= 40);
    assert_eq!(
        account.requested_bytes_without_arc_headers,
        account.window_payload_bytes
            + account.free_slot_bytes
            + account.ready_slot_bytes
            + account.retired_slot_bytes
            + account.endpoint_bytes
            + account.ring_control_bytes
    );
    assert_eq!(producer.available_credits(), 3);
}

#[test]
fn an_account_is_drawn_up_from_what_is_reserved() {
    let plan = planned(2, 3, 1).unwrap();
    let totals = (
        plan.frame_capacity_total,
        plan.sample_capacity_total,
        plan.window_payload_bytes,
    );
    assert_eq!(
        account(2, 3, 1, 2, Some(totals)),
        Some(plan),
        "exactly what was asked for"
    );
    assert_eq!(account(2, 3, 1, 2, None), None);
    assert_eq!(account(2, 3, 1, usize::MAX, Some(totals)), None);
    let much = (totals.0, totals.1, usize::MAX);
    assert_eq!(account(2, 3, 1, 2, Some(much)), None);
}
