//! What the control gate lets happen, told of what it shows.
use super::control::EPOCH_LIMIT;
use super::{CallbackGuard, ControlGate, GateView, Observation};
use crate::audio::{ScheduledArmOutcome, ScheduledStartOutcome, StartState};
use vstd::prelude::*;

verus! {

/// What is committed on an observation: a clear, a new timeline or a replacement takes the next
/// version, and leaves its own notice and every other as it was. One that fails tells what stands.
pub proof fn a_committed_change_takes_the_next_version(
    gate: &ControlGate,
    observation: Observation<'_>,
    cleared: Result<GateView, GateView>,
    moved: Result<GateView, GateView>,
    replaced: Result<GateView, GateView>,
)
    requires
        call_ensures(ControlGate::clear, (gate, observation), cleared),
        call_ensures(ControlGate::reanchor, (gate, observation), moved),
        call_ensures(ControlGate::replace, (gate, observation), replaced),
    ensures
        cleared matches Ok(view) ==> {
            &&& view.says().epoch == observation.seen().says().epoch + 1
            &&& view.says().revoked
            &&& view.says().reanchored == observation.seen().says().reanchored
            &&& !view.says().armed || observation.seen().says().won
            &&& view.current == observation.seen().current
        },
        moved matches Ok(view) ==> {
            &&& view.says().epoch == observation.seen().says().epoch + 1
            &&& view.says().reanchored
            &&& view.says().revoked == observation.seen().says().revoked
            &&& view.says().armed == observation.seen().says().armed
            &&& view.current == observation.seen().current
        },
        replaced matches Ok(view) ==> {
            &&& view.says().epoch == observation.seen().says().epoch + 1
            &&& view.says().reanchored == observation.seen().says().reanchored
            &&& view.says().revoked == observation.seen().says().revoked
            &&& view.says().armed == observation.seen().says().armed
            &&& view.current == observation.seen().current
        },
        cleared matches Err(view) ==> gate.shows(view),
        moved matches Err(view) ==> gate.shows(view),
        replaced matches Err(view) ==> gate.shows(view),
{
}

/// A decision that puts what is prepared out of order is made final by a new version, which changes
/// nothing else; one that does not is made final by the version that was seen.
pub proof fn a_decision_is_made_final(
    gate: &ControlGate,
    observation: Observation<'_>,
    replaces: bool,
    stands: Option<GateView>,
)
    requires
        call_ensures(ControlGate::conclude, (gate, observation, replaces), stands),
    ensures
        stands matches Some(view) ==> view.says().epoch == observation.seen().says().epoch + (
        if replaces {
            1int
        } else {
            0
        }),
        stands matches Some(view) ==> view.says().revoked == observation.seen().says().revoked
            && view.says().reanchored == observation.seen().says().reanchored,
        replaces && observation.seen().says().epoch + 1 >= EPOCH_LIMIT ==> stands is None,
{
}

/// Nothing is observed while a callback is active.
pub proof fn nothing_is_observed_under_a_callback(
    gate: &ControlGate,
    observation: Option<Observation<'_>>,
)
    requires
        call_ensures(ControlGate::observe, (gate,), observation),
    ensures
        observation matches Some(o) ==> !o.seen().says().active && !o.seen().says().dirty
            && o.of() == gate,
{
}

/// A source is claimed only where none is current and the version that it was prepared for stands;
/// it is the current one then.
pub proof fn a_source_is_claimed_where_none_is(
    callback: &CallbackGuard<'_>,
    epoch: u64,
    source: u64,
    claimed: bool,
)
    requires
        call_ensures(CallbackGuard::claim, (callback, epoch, source), claimed),
    ensures
        claimed ==> callback.of().makes_current(source) && exists|found: GateView| #[trigger]
            callback.of().shows(found) && found.says().epoch == epoch && found.current == 0,
{
}

/// A start is armed for the boundary that was given, where control is neither closed nor under a
/// callback, and no start is armed or won; otherwise it is told why not, with the boundary that
/// stands.
pub proof fn a_start_is_armed_where_none_is(
    gate: &ControlGate,
    boundary: i64,
    result: Result<ScheduledArmOutcome, ()>,
)
    requires
        call_ensures(ControlGate::try_arm, (gate, boundary), result),
    ensures
        exists|found: GateView, stored: i64|
            {
                let said = found.says();
                &&& #[trigger] gate.shows(found)
                &&& #[trigger] gate.reads_boundary(stored)
                &&& result == Ok::<ScheduledArmOutcome, ()>(ScheduledArmOutcome::Closed)
                    <==> said.closed
                &&& result == Ok::<ScheduledArmOutcome, ()>(
                    ScheduledArmOutcome::BoundaryAlreadyWon { start_at_zone_us: stored },
                ) <==> !said.closed && !said.active && said.won
                &&& result == Ok::<ScheduledArmOutcome, ()>(
                    ScheduledArmOutcome::AlreadyArmed { start_at_zone_us: stored },
                ) <==> !said.closed && !said.active && !said.won && said.armed
                &&& result == Ok::<ScheduledArmOutcome, ()>(ScheduledArmOutcome::Armed) ==> {
                    &&& !said.closed && !said.active && !said.won && !said.armed
                    &&& gate.stores_boundary(boundary)
                }
                &&& !said.closed && said.active ==> result is Err
            },
{
}

/// A start is won by what is presented at its boundary or later, and by nothing else; once won it has
/// started. Where none is scheduled, or control is closed, that is told instead.
pub proof fn a_start_is_won_at_its_boundary(
    callback: &CallbackGuard<'_>,
    presentation: Option<i64>,
    outcome: ScheduledStartOutcome,
)
    requires
        call_ensures(CallbackGuard::decide_start, (callback, presentation), outcome),
    ensures
        outcome matches ScheduledStartOutcome::BoundaryWon { start_at_zone_us } ==> (
        presentation matches Some(at) && at >= start_at_zone_us),
        outcome matches ScheduledStartOutcome::Waiting { start_at_zone_us } ==> (
        presentation matches Some(at) ==> at < start_at_zone_us),
        exists|found: GateView, stored: i64|
            {
                let said = found.says();
                &&& #[trigger] callback.of().shows(found)
                &&& #[trigger] callback.of().reads_boundary(stored)
                &&& said.closed ==> outcome == ScheduledStartOutcome::Closed
                &&& outcome == (ScheduledStartOutcome::Started { start_at_zone_us: stored })
                    <==> !said.closed && said.won
                &&& outcome == ScheduledStartOutcome::Unscheduled <==> !said.closed && !said.won
                    && !said.armed
                &&& outcome is Waiting <==> !said.closed && !said.won && said.armed && (
                presentation matches Some(at) ==> at < stored)
                &&& outcome is BoundaryWon ==> !said.closed && !said.won && said.armed
                &&& outcome matches ScheduledStartOutcome::BoundaryWon { start_at_zone_us }
                    ==> start_at_zone_us == stored
                &&& outcome matches ScheduledStartOutcome::Waiting { start_at_zone_us }
                    ==> start_at_zone_us == stored
            },
{
}

/// The phase of a start is told with its boundary.
pub proof fn a_start_is_told_with_its_boundary(gate: &ControlGate, phase: StartState)
    requires
        call_ensures(ControlGate::start_state, (gate,), phase),
    ensures
        exists|found: GateView, stored: i64|
            {
                &&& #[trigger] gate.shows(found)
                &&& #[trigger] gate.reads_boundary(stored)
                &&& phase == (StartState::BoundaryWon { start_at_zone_us: stored })
                    <==> found.says().won
                &&& phase == (StartState::Armed { start_at_zone_us: stored })
                    <==> found.says().armed && !found.says().won
                &&& phase == StartState::Idle <==> !found.says().armed && !found.says().won
            },
{
}

} // verus!
