use sendspin::audio::synced_player::ingress::checkpoint::{PublishedCheckpoint, SourcePosition};
use sendspin::audio::synced_player::ingress::control::{
    arm_step, cancelled_control, closed_control, committed_control, is_active, is_pending,
    observed_control, start_step, ArmStep, Notice, StartStep, CALLBACK_ACTIVE,
    CLOSED_CONSUMPTION_PENDING, START_ARMED, START_CLOSED, START_WON,
};
use sendspin::audio::synced_player::ingress::ControlGate;
use sendspin::audio::{ScheduledArmOutcome, ScheduledStartOutcome, StartState};
use std::sync::atomic::{AtomicU64, Ordering};

#[test]
fn renderer_realtime_control_close_preserves_phase_cancel_clears_only_unwon() {
    for boundary in [i64::MIN, 0, i64::MAX] {
        let gate = ControlGate::default();
        assert_eq!(gate.try_arm(boundary), Ok(ScheduledArmOutcome::Armed));
        gate.close();
        assert_eq!(
            gate.start_state(),
            StartState::Armed {
                start_at_zone_us: boundary
            }
        );
        assert_eq!(gate.cancel_before_start(), Ok(()));
        assert_eq!(gate.start_state(), StartState::Idle);

        let gate = ControlGate::default();
        assert_eq!(gate.try_arm(boundary), Ok(ScheduledArmOutcome::Armed));
        let callback = gate.begin_callback().unwrap();
        assert_eq!(
            callback.decide_start(Some(boundary)),
            ScheduledStartOutcome::BoundaryWon {
                start_at_zone_us: boundary
            }
        );
        assert_eq!(gate.cancel_before_start(), Err(boundary));
        drop(callback);
        gate.close();
        assert_eq!(
            gate.start_state(),
            StartState::BoundaryWon {
                start_at_zone_us: boundary
            }
        );
    }
}

#[test]
fn renderer_realtime_control_observer_never_blocks_callback_or_revives_old_transaction() {
    let gate = ControlGate::default();
    gate.try_arm(10).unwrap();
    let old = gate.observe().unwrap();
    {
        let callback = gate.begin_callback().unwrap();
        assert!(gate.observe().is_none());
        assert_eq!(
            callback.decide_start(Some(10)),
            ScheduledStartOutcome::BoundaryWon {
                start_at_zone_us: 10
            }
        );
        callback.publish_current(1 << 40);
    }
    assert!(!gate.validate(&old));
    assert!(gate.clear(old).is_err());
    let fresh = gate.observe().unwrap();
    assert_eq!(fresh.view().current(), 1 << 40);
    gate.clear(fresh).unwrap();
    assert_eq!(
        gate.start_state(),
        StartState::BoundaryWon {
            start_at_zone_us: 10
        }
    );
}

#[test]
fn renderer_realtime_checkpoint_replace_preserves_actual_clear_rejects_old_position() {
    let gate = ControlGate::default();
    let checkpoint = PublishedCheckpoint::new();
    let progress = AtomicU64::new(7);
    let position = SourcePosition {
        retired_through: 17,
        current: 1 << 40,
        index: 7,
        cursor_us: -123,
        cursor_remainder: 11,
    };
    {
        let callback = gate.begin_callback().unwrap();
        checkpoint.publish(&callback, position);
    }
    let actual = checkpoint.read(&gate, &progress).unwrap();
    assert_eq!(actual.position, position);
    assert_eq!(actual.source_frames, 7);
    gate.replace(actual.view).unwrap();
    assert!(checkpoint.read(&gate, &progress).is_some());
    let cleared = gate.clear(gate.observe().unwrap()).unwrap();
    checkpoint.invalidate_before(cleared.epoch());
    assert!(checkpoint.read(&gate, &progress).is_none());
    assert_eq!(progress.load(Ordering::Relaxed), 7);
    {
        let callback = gate.begin_callback().unwrap();
        callback.finish_current();
        let fresh = SourcePosition {
            current: 0,
            index: 0,
            ..position
        };
        checkpoint.publish(&callback, fresh);
    }
    let fresh = checkpoint.read(&gate, &progress).unwrap();
    assert_eq!(fresh.position.current, 0);
    assert_eq!(fresh.source_frames, 7);
}

#[test]
fn a_word_tells_of_its_callback_and_its_close() {
    let gate = ControlGate::default();
    assert!(!is_active(gate.view().word) && !is_pending(gate.view().word));
    let callback = gate.begin_callback().unwrap();
    assert!(is_active(callback.view().word) && !is_pending(callback.view().word));
    gate.close();
    assert!(is_active(gate.view().word) && is_pending(gate.view().word));
    drop(callback);
    assert!(!is_active(gate.view().word) && !is_pending(gate.view().word));
}

#[test]
fn a_cancel_waits_for_the_callback_that_was_active() {
    let gate = ControlGate::default();
    let callback = gate.begin_callback().unwrap();
    assert_eq!(gate.cancel_before_start(), Ok(()));
    assert!(gate.terminal_consumption_pending());
    drop(callback);
    assert!(!gate.terminal_consumption_pending());
    let idle = ControlGate::default();
    assert_eq!(idle.cancel_before_start(), Ok(()));
    assert!(!idle.terminal_consumption_pending());
}

#[test]
fn operations_move_the_word_as_their_steps_do() {
    let gate = ControlGate::default();
    drop(gate.begin_callback().unwrap());
    let left = gate.view().word;
    let observation = gate.observe().unwrap();
    let observed = observation.view().word;
    assert_eq!(observed_control(left), Some(observed));
    assert_ne!(observed, left, "the trace of the callback is gone");
    assert_eq!(gate.view().word, observed);
    let committed = gate.reanchor(observation).unwrap();
    assert_eq!(
        committed_control(observed, Notice::Reanchored),
        Some(committed.word)
    );
    assert_eq!(gate.view().word, committed.word);
    assert_eq!(gate.try_arm(5), Ok(ScheduledArmOutcome::Armed));
    assert_eq!(
        arm_step(committed.word, 0),
        ArmStep::Attempt(gate.view().word)
    );
    let callback = gate.begin_callback().unwrap();
    let entered = callback.view().word;
    assert_eq!(
        callback.decide_start(Some(5)),
        ScheduledStartOutcome::BoundaryWon {
            start_at_zone_us: 5
        }
    );
    assert_eq!(
        start_step(entered, 5, Some(5)),
        StartStep::Attempt(gate.view().word)
    );
    let won = gate.view().word;
    gate.close();
    assert_eq!(gate.view().word, closed_control(won));
    let other = ControlGate::default();
    assert_eq!(other.cancel_before_start(), Ok(()));
    assert_eq!(cancelled_control(0), Some(other.view().word));
}

#[test]
fn only_one_callback_is_active() {
    let gate = ControlGate::default();
    let callback = gate.begin_callback().unwrap();
    assert!(gate.begin_callback().is_none());
    drop(callback);
    assert!(gate.begin_callback().is_some());
}

#[test]
fn a_callback_active_at_the_first_close_is_waited_for_and_no_later_one() {
    let gate = ControlGate::default();
    let callback = gate.begin_callback().unwrap();
    gate.close();
    assert!(gate.terminal_consumption_pending());
    drop(callback);
    assert!(!gate.terminal_consumption_pending());
    let silent = gate.begin_callback().unwrap();
    gate.close();
    assert!(!gate.terminal_consumption_pending());
    assert_eq!(silent.decide_start(None), ScheduledStartOutcome::Closed);
    drop(silent);
    assert_eq!(gate.try_arm(1), Ok(ScheduledArmOutcome::Closed));
}

#[test]
fn a_claim_needs_the_version_and_an_empty_place() {
    let gate = ControlGate::default();
    let callback = gate.begin_callback().unwrap();
    assert!(!callback.claim(1, 5));
    assert!(callback.claim(0, 5));
    assert_eq!(callback.view().current(), 5);
    assert!(!callback.claim(0, 6));
    callback.finish_current();
    assert_eq!(callback.view().current(), 0);
    assert!(callback.claim(0, 6));
}

#[test]
fn arming_waits_for_the_callback_and_keeps_the_first_boundary() {
    let gate = ControlGate::default();
    let callback = gate.begin_callback().unwrap();
    assert_eq!(gate.try_arm(5), Err(()));
    assert_eq!(
        callback.decide_start(Some(5)),
        ScheduledStartOutcome::Unscheduled
    );
    drop(callback);
    assert_eq!(gate.try_arm(5), Ok(ScheduledArmOutcome::Armed));
    assert_eq!(
        gate.try_arm(6),
        Ok(ScheduledArmOutcome::AlreadyArmed {
            start_at_zone_us: 5
        })
    );
    let callback = gate.begin_callback().unwrap();
    assert_eq!(
        callback.decide_start(Some(4)),
        ScheduledStartOutcome::Waiting {
            start_at_zone_us: 5
        }
    );
    assert_eq!(
        callback.decide_start(Some(7)),
        ScheduledStartOutcome::BoundaryWon {
            start_at_zone_us: 5
        }
    );
    assert_eq!(
        callback.decide_start(None),
        ScheduledStartOutcome::Started {
            start_at_zone_us: 5
        }
    );
    drop(callback);
    assert_eq!(
        gate.try_arm(9),
        Ok(ScheduledArmOutcome::BoundaryAlreadyWon {
            start_at_zone_us: 5
        })
    );
}

#[test]
fn a_reanchor_is_noticed_and_acknowledged() {
    let gate = ControlGate::default();
    let committed = gate.reanchor(gate.observe().unwrap()).unwrap();
    assert_eq!(committed.epoch(), 1);
    assert!(committed.timeline_reanchored());
    let callback = gate.begin_callback().unwrap();
    assert!(callback.view().timeline_reanchored());
    callback.acknowledge_reanchor();
    assert!(!callback.view().timeline_reanchored());
}

#[test]
fn control_words_hold_exact_values() {
    assert_eq!(
        closed_control(CALLBACK_ACTIVE | START_ARMED),
        CALLBACK_ACTIVE | START_ARMED | START_CLOSED | CLOSED_CONSUMPTION_PENDING
    );
    assert_eq!(
        closed_control(CALLBACK_ACTIVE | START_CLOSED),
        CALLBACK_ACTIVE | START_CLOSED
    );
    assert_eq!(
        committed_control(START_ARMED, Notice::Cleared),
        Some((1 << 8) | 4)
    );
    assert_eq!(
        committed_control(START_ARMED | START_WON, Notice::Cleared),
        Some((1 << 8) | 4 | START_ARMED | START_WON)
    );
    assert_eq!(committed_control(u64::MAX, Notice::Replaced), None);
}
