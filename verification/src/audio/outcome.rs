//! Answers given to callers about a scheduled start.
use vstd::prelude::*;

verus! {

/// What became of a request to start at a given zone time.
#[derive(Clone, Copy, Debug, PartialEq, Eq, Structural)]
pub enum ScheduledArmOutcome {
    Armed,
    AlreadyArmed { start_at_zone_us: i64 },
    BoundaryAlreadyWon { start_at_zone_us: i64 },
    Closed,
    StaleScope,
}

/// What a device callback may do about a scheduled start.
#[derive(Clone, Copy, Debug, PartialEq, Eq, Structural)]
pub enum ScheduledStartOutcome {
    Unscheduled,
    Waiting { start_at_zone_us: i64 },
    BoundaryWon { start_at_zone_us: i64 },
    Started { start_at_zone_us: i64 },
    Closed,
    StaleScope,
}

/// The publicly observable phase of a scheduled start.
#[derive(Clone, Copy, Debug, PartialEq, Eq, Structural)]
pub enum StartState {
    Idle,
    Armed { start_at_zone_us: i64 },
    BoundaryWon { start_at_zone_us: i64 },
}

} // verus!
