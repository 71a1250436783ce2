//! What the control words decide: who may claim, commit, arm, start, close and cancel, and what
//! that leaves.
use super::checkpoint::{coherent, counts, reading_gives, ReadFound};
use super::control::{
    arm_answers, arm_step, cancelled_says, claimed_control, closed_says, committed_says, control,
    observed_control, phase_says, reached, start_answers, start_step, ArmStep, Control, Notice,
    StartStep,
};
use super::GateView;
use crate::audio::{ScheduledArmOutcome, ScheduledStartOutcome, StartState};
use vstd::prelude::*;

verus! {

/// A commit takes the next version, of which there are as many as fit above the flags, and leaves
/// its own notice beside those that stand. Only a clear disarms a start, and none takes back one
/// that is won. Nothing else of the word changes.
pub proof fn a_commit_takes_the_next_version(before: Control, notice: Notice)
    requires
        before.epoch < 0x100_0000_0000_0000,
    ensures
        committed_says(before, notice) is None <==> before.epoch == 0xFF_FFFF_FFFF_FFFF,
        committed_says(before, notice) matches Some(after) ==> {
            &&& after.epoch == before.epoch + 1
            &&& after.revoked <==> before.revoked || notice is Cleared
            &&& after.reanchored <==> before.reanchored || notice is Reanchored
            &&& !(notice is Cleared) ==> after.armed == before.armed
            &&& notice is Cleared && !before.won ==> !after.armed
            &&& after.won == before.won
            &&& after.closed == before.closed
            &&& after.pending == before.pending
            &&& after.active == before.active
            &&& after.dirty == before.dirty
        },
{
}

/// A close keeps the start and its version, and lets the callback that is active at the first
/// close consume to its end. A cancel does the same to a start that is not won, and disarms it;
/// one that is won is not cancelled.
pub proof fn a_close_lets_the_active_callback_end(before: Control)
    ensures
        closed_says(before).closed,
        closed_says(before).pending <==> before.pending || (before.active && !before.closed),
        closed_says(before) == (Control {
            closed: true,
            pending: closed_says(before).pending,
            ..before
        }),
        cancelled_says(before) is None <==> before.won,
        cancelled_says(before) matches Some(after) ==> after.closed && !after.armed && after == (
        Control { armed: false, ..closed_says(before) }),
{
}

/// Nothing is observed under an active callback; an observation takes away the trace of those
/// before it, and nothing else.
pub proof fn an_observation_takes_only_the_trace(word: u64, next: Option<u64>)
    requires
        call_ensures(observed_control, (word,), next),
    ensures
        next is None <==> control(word).active,
        next matches Some(n) ==> !control(n).dirty && control(n) == (Control {
            dirty: false,
            ..control(word)
        }),
{
}

/// A source is claimed only in the version that it was published for, and only while no other is
/// current. The claim answers a clear, and leaves a trace.
pub proof fn a_source_is_claimed_in_its_own_version(
    word: u64,
    current: u64,
    published_epoch: u64,
    next: Option<u64>,
)
    requires
        call_ensures(claimed_control, (word, current, published_epoch), next),
    ensures
        next is Some <==> current == 0 && control(word).epoch == published_epoch,
        next matches Some(n) ==> control(n).epoch == published_epoch && !control(n).revoked
            && control(n).dirty && control(n) == (Control {
            revoked: false,
            dirty: true,
            ..control(word)
        }),
{
}

/// A start is armed only where it is open, no callback is active, and none is armed or won. Every
/// other answer says which of these it was, and names the boundary that stands.
pub proof fn a_start_is_armed_once(
    before: Control,
    stored: i64,
    result: Result<ScheduledArmOutcome, ()>,
)
    requires
        arm_answers(before, stored, result),
    ensures
        result == Ok::<ScheduledArmOutcome, ()>(ScheduledArmOutcome::Armed) ==> !before.closed
            && !before.active && !before.won && !before.armed,
        result == Ok::<ScheduledArmOutcome, ()>(ScheduledArmOutcome::Closed) <==> before.closed,
        result matches Ok(ScheduledArmOutcome::AlreadyArmed { start_at_zone_us })
            ==> start_at_zone_us == stored && before.armed && !before.won,
        result matches Ok(ScheduledArmOutcome::BoundaryAlreadyWon { start_at_zone_us })
            ==> start_at_zone_us == stored && before.won,
        !before.closed && !before.active && before.won ==> result is Ok,
        !before.closed && !before.active && before.armed ==> result is Ok,
        !before.closed && before.active ==> result is Err,
{
}

/// An attempt to arm changes nothing but that the start is armed, and one to start nothing but
/// that an armed start is won.
pub proof fn attempts_change_the_start_alone(
    word: u64,
    stored: i64,
    presentation: Option<i64>,
    arms: ArmStep,
    starts: StartStep,
)
    requires
        call_ensures(arm_step, (word, stored), arms),
        call_ensures(start_step, (word, stored, presentation), starts),
    ensures
        arms matches ArmStep::Attempt(next) ==> {
            &&& !control(word).closed && !control(word).active && !control(word).won
                && !control(word).armed
            &&& control(next).armed
            &&& control(next) == (Control { armed: true, ..control(word) })
        },
        starts matches StartStep::Attempt(next) ==> {
            &&& !control(word).closed && !control(word).won && control(word).armed
            &&& presentation matches Some(at) && at >= stored
            &&& control(next).won && !control(next).armed
            &&& control(next) == (Control { armed: false, won: true, ..control(word) })
        },
        (!control(word).closed && !control(word).won && control(word).armed && (presentation
            matches Some(at) && at >= stored)) ==> starts is Attempt,
{
}

/// A callback is answered by the start as it stands: closed; started, from the boundary that was
/// won; not scheduled; or waiting, exactly as long as what it presents is before the boundary. It
/// wins only from the boundary on.
pub proof fn a_callback_waits_for_the_boundary(
    before: Control,
    stored: i64,
    presentation: Option<i64>,
    outcome: ScheduledStartOutcome,
)
    requires
        start_answers(before, stored, presentation, outcome),
    ensures
        before.closed ==> outcome == ScheduledStartOutcome::Closed,
        !before.closed && before.won <==> outcome is Started,
        outcome matches ScheduledStartOutcome::Started { start_at_zone_us } ==> start_at_zone_us
            == stored,
        !before.closed && !before.won && !before.armed <==> outcome is Unscheduled,
        outcome is Waiting <==> !before.closed && !before.won && before.armed && (presentation
            matches Some(at) ==> at < stored),
        outcome matches ScheduledStartOutcome::Waiting { start_at_zone_us } ==> start_at_zone_us
            == stored,
        outcome matches ScheduledStartOutcome::BoundaryWon { start_at_zone_us } ==> start_at_zone_us
            == stored && (presentation matches Some(at) && at >= stored) && before.armed
            && !before.won && !before.closed,
        outcome != ScheduledStartOutcome::StaleScope,
        reached(presentation, stored) <==> (presentation matches Some(at) && at >= stored),
{
}

/// The phase that callers see is what the word says of the start, whether it is closed or not.
pub proof fn the_phase_is_that_of_the_start(before: Control, stored: i64)
    ensures
        before.won ==> phase_says(before, stored) == (StartState::BoundaryWon {
            start_at_zone_us: stored,
        }),
        before.armed && !before.won ==> phase_says(before, stored) == (StartState::Armed {
            start_at_zone_us: stored,
        }),
        !before.armed && !before.won ==> phase_says(before, stored) == StartState::Idle,
{
}

/// A position counts where one was published, in a version that was not put out of use since. What
/// is read is coherent where no callback was active, a position counted before and after, and the
/// observation stood; then, and only then, a reading gives what it found.
pub proof fn only_a_coherent_position_is_read(
    valid: bool,
    epoch: u64,
    invalid_before: u64,
    seen: GateView,
    found: ReadFound,
)
    ensures
        counts(valid, epoch, invalid_before) <==> valid && epoch >= invalid_before,
        coherent(seen.says().active, found.counted, found.still, found.stood)
            <==> !seen.says().active && found.counted && found.still && found.stood,
        reading_gives(seen, found) is Some <==> !seen.says().active && found.counted
            && found.still && found.stood,
        reading_gives(seen, found) matches Some(read) ==> read.0 == found.position && read.1
            == found.source_frames,
{
}

} // verus!
