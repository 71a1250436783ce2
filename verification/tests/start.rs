use sendspin::audio::synced_player::handoff_probe::start::{
    GateStartAuthority, StartAuthority, StartDecision,
};
use sendspin::audio::synced_player::ingress::control::{START_ARMED, START_WON};
use sendspin::audio::synced_player::ingress::ControlGate;
use sendspin::audio::{
    RendererOperationOutcome, RendererOwner, RendererQueueLimits, ScheduledArmOutcome,
    ScheduledStartOutcome, StartState,
};
use std::sync::Arc;

#[test]
fn realtime_handoff_probe_start_authority_matches_real_owner_boundaries_and_clear() {
    for boundary in [i64::MIN, -5, 0, i64::MAX] {
        let authority = StartAuthority::default();
        let owner = RendererOwner::new(RendererQueueLimits::new(32, 8, 16).unwrap());
        let scope = owner.mint_scope().unwrap();
        assert_eq!(
            Ok(authority.arm(boundary)),
            owner.arm_scheduled_start(scope, boundary)
        );
        assert_eq!(
            Ok(authority.arm(123)),
            owner.arm_scheduled_start(scope, 123)
        );
        for presentation in [None, boundary.checked_sub(1), Some(boundary), None] {
            let expected = owner
                .try_callback_permit(scope)
                .unwrap()
                .scheduled_start(presentation);
            assert_eq!(authority.evaluate(presentation), expected);
            assert!(expected.is_ok());
        }
        assert_eq!(authority.cancel(), Err(boundary));
        authority.clear_unstarted();
        assert_eq!(owner.clear(scope), Ok(RendererOperationOutcome::Applied));
        assert_eq!(
            Ok(authority.arm(123)),
            owner.arm_scheduled_start(scope, 123)
        );
    }
    let authority = StartAuthority::default();
    assert_eq!(authority.arm(100), ScheduledArmOutcome::Armed);
    authority.clear_unstarted();
    assert_eq!(
        authority.evaluate(None),
        Ok(ScheduledStartOutcome::Unscheduled)
    );
    assert_eq!(authority.arm(200), ScheduledArmOutcome::Armed);
    assert_eq!(
        authority.evaluate(Some(100)),
        Ok(ScheduledStartOutcome::Waiting {
            start_at_zone_us: 200
        })
    );
}

#[test]
fn realtime_handoff_probe_start_cancel_and_boundary_have_one_winner() {
    for cancel_first in [false, true] {
        let authority = Arc::new(StartAuthority::default());
        authority.arm(100);
        let other = Arc::clone(&authority);
        if cancel_first {
            other.cancel().unwrap();
        } else {
            assert_eq!(
                other.evaluate(Some(100)),
                Ok(ScheduledStartOutcome::BoundaryWon {
                    start_at_zone_us: 100
                })
            );
        }
        if cancel_first {
            assert_eq!(
                authority.evaluate(Some(100)),
                Ok(ScheduledStartOutcome::Closed)
            );
        } else {
            assert_eq!(authority.cancel(), Err(100));
        }
    }
}

#[test]
fn realtime_handoff_probe_start_old_boundary_cannot_win_after_clear_and_rearm() {
    let authority = StartAuthority::default();
    authority.arm(100);
    assert_eq!(
        authority.evaluate_after_read(Some(100), || {
            authority.clear_unstarted();
            assert_eq!(authority.arm(200), ScheduledArmOutcome::Armed);
        }),
        Err(())
    );
    assert_eq!(
        authority.evaluate(Some(100)),
        Ok(ScheduledStartOutcome::Waiting {
            start_at_zone_us: 200
        })
    );
    assert_eq!(
        authority.evaluate(Some(200)),
        Ok(ScheduledStartOutcome::BoundaryWon {
            start_at_zone_us: 200
        })
    );
}

#[test]
fn realtime_handoff_probe_gate_start_preserves_full_boundary_and_cancel_winner() {
    for boundary in [i64::MIN, -5, 0, i64::MAX] {
        for cancel_first in [false, true] {
            let gate = Arc::new(ControlGate::default());
            let start = GateStartAuthority::new(Arc::clone(&gate));
            assert_eq!(start.arm(boundary), Ok(ScheduledArmOutcome::Armed));
            let callback = gate.begin_callback().unwrap();
            // A control arm cannot modify boundary storage while it is read.
            assert_eq!(start.arm(123), Err(()));
            if cancel_first {
                start.cancel().unwrap();
                assert_eq!(
                    start.decide(Some(boundary)),
                    Ok(ScheduledStartOutcome::Closed)
                );
            } else {
                assert_eq!(
                    start.decide(None),
                    Ok(ScheduledStartOutcome::Waiting {
                        start_at_zone_us: boundary
                    })
                );
                assert_eq!(
                    start.decide(Some(boundary)),
                    Ok(ScheduledStartOutcome::BoundaryWon {
                        start_at_zone_us: boundary
                    })
                );
                assert_eq!(start.cancel(), Err(boundary));
                assert_eq!(
                    start.decide(None),
                    Ok(ScheduledStartOutcome::Started {
                        start_at_zone_us: boundary
                    })
                );
            }
            drop(callback);
            gate.clear(gate.observe().unwrap()).unwrap();
            assert_eq!(
                start.arm(123),
                Ok(if cancel_first {
                    ScheduledArmOutcome::Closed
                } else {
                    ScheduledArmOutcome::BoundaryAlreadyWon {
                        start_at_zone_us: boundary,
                    }
                })
            );
        }
    }
}

#[test]
fn realtime_handoff_probe_gate_start_snapshot_matches_owner_without_callback_backfill() {
    for boundary in [i64::MIN, -1, 0, i64::MAX] {
        let gate = Arc::new(ControlGate::default());
        let start = GateStartAuthority::new(Arc::clone(&gate));
        let owner = RendererOwner::new(RendererQueueLimits::new(32, 8, 16).unwrap());
        let scope = owner.mint_scope().unwrap();
        assert_eq!(start.snapshot(), owner.start_state(scope).unwrap());
        assert_eq!(
            start.arm(boundary),
            owner.arm_scheduled_start(scope, boundary)
        );
        assert_eq!(start.snapshot(), owner.start_state(scope).unwrap());
        let callback = gate.begin_callback().unwrap();
        assert_eq!(
            start.decide(None),
            owner
                .try_callback_permit(scope)
                .unwrap()
                .scheduled_start(None)
        );
        assert_eq!(
            start.snapshot(),
            StartState::Armed {
                start_at_zone_us: boundary
            }
        );
        assert_eq!(
            start.decide(Some(boundary)),
            owner
                .try_callback_permit(scope)
                .unwrap()
                .scheduled_start(Some(boundary))
        );
        // Read before the callback completes: the phase is already won.
        assert_eq!(start.snapshot(), owner.start_state(scope).unwrap());
        assert_eq!(
            start.snapshot(),
            StartState::BoundaryWon {
                start_at_zone_us: boundary
            }
        );
        drop(callback);
        gate.clear(gate.observe().unwrap()).unwrap();
        owner.clear(scope).unwrap();
        assert_eq!(start.snapshot(), owner.start_state(scope).unwrap());
    }
    let gate = Arc::new(ControlGate::default());
    let start = GateStartAuthority::new(Arc::clone(&gate));
    start.arm(100).unwrap();
    gate.clear(gate.observe().unwrap()).unwrap();
    assert_eq!(start.snapshot(), StartState::Idle);
    start.arm(200).unwrap();
    assert_eq!(
        start.snapshot(),
        StartState::Armed {
            start_at_zone_us: 200
        }
    );
    start.cancel().unwrap();
    assert_eq!(
        start.snapshot(),
        StartState::Idle,
        "a close is not a new public phase"
    );
}

#[test]
fn realtime_handoff_probe_wide_gate_rejects_complete_callback_aba_and_partial_position() {
    let gate = ControlGate::default();
    let stale = gate.observe().unwrap();
    let callback = gate.begin_callback().unwrap();
    callback.publish_current(0);
    drop(callback);
    assert!(!gate.validate(&stale));
    // A second reader cannot wipe the trace and revive this live transaction.
    assert!(gate.observe().is_none());
    assert!(gate.replace(stale).is_err());
    let before = gate.observe().unwrap();
    let callback = gate.begin_callback().unwrap();
    callback.publish_current(1 << 40);
    assert!(!gate.validate(&before));
    assert!(gate.replace(before).is_err());
    assert!(gate.observe().is_none());
    drop(callback);
    let after = gate.observe().unwrap();
    assert_eq!(after.view().current(), 1 << 40);
    assert!(gate.replace(after).is_ok());
    let callback = gate.begin_callback().unwrap();
    callback.publish_current(1 << 14);
    drop(callback);
    let after = gate.observe().unwrap();
    assert_eq!(after.view().current(), 1 << 14);
    assert!(!after.view().current_revoked());
    assert!(!after.view().timeline_reanchored());
}

#[test]
fn realtime_handoff_probe_wide_gate_clear_keeps_start_winner_in_same_commit() {
    for win in [false, true] {
        let gate = Arc::new(ControlGate::default());
        let start = GateStartAuthority::new(Arc::clone(&gate));
        assert_eq!(start.arm(i64::MAX), Ok(ScheduledArmOutcome::Armed));
        let old = gate.observe().unwrap();
        let callback = gate.begin_callback().unwrap();
        if win {
            assert_eq!(
                start.decide(Some(i64::MAX)),
                Ok(ScheduledStartOutcome::BoundaryWon {
                    start_at_zone_us: i64::MAX
                })
            );
        }
        callback.publish_current(1 << 40);
        drop(callback);
        assert!(gate.clear(old).is_err());
        gate.clear(gate.observe().unwrap()).unwrap();
        let view = gate.view();
        assert_eq!(view.word & START_ARMED, 0);
        assert_eq!(view.word & START_WON != 0, win);
        assert!(view.current_revoked());
        assert_eq!(view.current(), 1 << 40);
        assert_eq!(view.epoch(), 1);
    }
}

#[test]
fn realtime_handoff_probe_wide_gate_observer_cannot_defeat_inflight_start() {
    let gate = Arc::new(ControlGate::default());
    let start = GateStartAuthority::new(Arc::clone(&gate));
    assert_eq!(start.arm(123), Ok(ScheduledArmOutcome::Armed));
    let callback = gate.begin_callback().unwrap();
    assert_eq!(
        start.decide_after_read(Some(123), || {
            assert!(gate.observe().is_none());
        }),
        Ok(ScheduledStartOutcome::BoundaryWon {
            start_at_zone_us: 123
        })
    );
    drop(callback);
}

#[test]
fn a_decision_outside_a_callback_is_refused() {
    let gate = Arc::new(ControlGate::default());
    let start = GateStartAuthority::new(Arc::clone(&gate));
    assert_eq!(start.decide(None), Err(()));
}
