//! What the accounts of a scope come to, operation by operation.
use crate::audio::owner::{
    account_steps_to, AccountStep, Accounts, EnqueueOutcome, Finalization, Minted, PlayerScope,
    RendererFault, RendererOperationOutcome, RendererTerminal, TerminalAck, TerminalState,
    TerminalWinner,
};
use vstd::prelude::*;

verus! {

/// A buffer is taken exactly where the scope is open and the buffer has frames, no more than
/// one may have, and fits beside what is queued, in frames and in buffers. A closed scope says
/// so before anything else, then an empty buffer is told, and a full queue tells what is in it.
pub proof fn a_buffer_is_taken_where_it_fits(a: Accounts, frames: usize)
    ensures
        a.refusal(frames) is None <==> !a.closed && frames > 0 && frames <= a.limits.chunk()
            && a.frames + frames <= a.limits.frames() && a.buffers < a.limits.buffers(),
        a.closed ==> a.refusal(frames) == Some(EnqueueOutcome::Closed),
        !a.closed && frames == 0 ==> a.refusal(frames) == Some(EnqueueOutcome::InvalidBuffer),
        !a.closed && frames > 0 && a.refusal(frames) is Some ==> a.refusal(frames) == Some(
            EnqueueOutcome::Full { queued_frames: a.frames, queued_buffers: a.buffers },
        ),
{
}

/// A buffer that is taken adds its frames and itself to what is queued, and nothing else
/// changes but the high water, which is the most there ever was. One that is not taken changes
/// nothing.
pub proof fn a_buffer_adds_its_frames(a: Accounts, frames: usize, b: Accounts)
    requires
        account_steps_to(a, AccountStep::Enqueue { frames }, b),
    ensures
        a.refusal(frames) is Some ==> b == a,
        a.refusal(frames) is None ==> {
            &&& b.frames == a.frames + frames
            &&& b.buffers == a.buffers + 1
            &&& b.high_frames >= b.frames && b.high_frames >= a.high_frames
            &&& b.high_frames == b.frames || b.high_frames == a.high_frames
            &&& b.high_buffers >= b.buffers && b.high_buffers >= a.high_buffers
            &&& b.high_buffers == b.buffers || b.high_buffers == a.high_buffers
            &&& b == (Accounts {
                frames: b.frames,
                buffers: b.buffers,
                high_frames: b.high_frames,
                high_buffers: b.high_buffers,
                ..a
            })
        },
{
}

/// Frames that were played are taken off what is queued, not below nothing, and with the last
/// of them the buffers. A callback is counted once, with what it lacked and the boundary that
/// it knew. A closed scope records none of it.
pub proof fn what_is_played_is_taken_off(
    a: Accounts,
    frames: usize,
    underrun: u64,
    boundary: Option<i64>,
    consumed: Accounts,
    called: Accounts,
    lacked: Accounts,
)
    requires
        account_steps_to(a, AccountStep::Consume { frames }, consumed),
        account_steps_to(a, AccountStep::Callback { frames, underrun, boundary }, called),
        account_steps_to(a, AccountStep::Underrun { underrun }, lacked),
    ensures
        a.closed ==> consumed == a && called == a && lacked == a,
        !a.closed ==> {
            &&& frames <= a.frames ==> consumed.frames == a.frames - frames
            &&& frames > a.frames ==> consumed.frames == 0
            &&& consumed.frames == 0 ==> consumed.buffers == 0
            &&& consumed.frames > 0 ==> consumed.buffers == a.buffers
            &&& consumed == (Accounts {
                frames: consumed.frames,
                buffers: consumed.buffers,
                ..a
            })
            &&& called.frames == consumed.frames && called.buffers == consumed.buffers
            &&& a.callbacks < u64::MAX ==> called.callbacks == a.callbacks + 1
            &&& a.underrun_frames + underrun <= u64::MAX ==> called.underrun_frames
                == a.underrun_frames + underrun && lacked.underrun_frames == a.underrun_frames
                + underrun
            &&& called.callbacks >= a.callbacks && called.underrun_frames >= a.underrun_frames
            &&& boundary is Some ==> called.last_boundary == boundary
            &&& boundary is None ==> called.last_boundary == a.last_boundary
            &&& called == (Accounts {
                callbacks: called.callbacks,
                underrun_frames: called.underrun_frames,
                last_boundary: called.last_boundary,
                ..consumed
            })
            &&& lacked == (Accounts { underrun_frames: lacked.underrun_frames, ..a })
        },
{
}

/// A clear gives up what is queued and keeps every count; a close only closes; the first fault
/// closes and stays; the first end closes, gives up what is queued, and stays.
pub proof fn a_scope_is_cleared_closed_and_ended(
    a: Accounts,
    fault: RendererFault,
    winner: TerminalWinner,
    ack: TerminalAck,
    cleared: Accounts,
    closed: Accounts,
    faulted: Accounts,
    ended: Accounts,
)
    requires
        account_steps_to(a, AccountStep::Clear, cleared),
        account_steps_to(a, AccountStep::Close, closed),
        account_steps_to(a, AccountStep::Fault { fault }, faulted),
        account_steps_to(a, AccountStep::Finalize { winner, ack }, ended),
    ensures
        !a.closed ==> cleared.frames == 0 && cleared.buffers == 0,
        a.closed ==> cleared == a && faulted == a,
        cleared == (Accounts { frames: cleared.frames, buffers: cleared.buffers, ..a }),
        closed.closed && closed == (Accounts { closed: true, ..a }),
        !a.closed ==> faulted.closed && faulted.fault == Some(fault),
        faulted == (Accounts { closed: true, fault: faulted.fault, ..a }),
        a.finalization is Some ==> ended == a,
        a.finalization is None ==> ended.closed && ended.frames == 0 && ended.buffers == 0
            && ended.finalization == Some(Finalization { winner, ack }) && ended.fault == a.fault
            && ended.callbacks == a.callbacks && ended.underrun_frames == a.underrun_frames
            && ended.last_boundary == a.last_boundary && ended.high_frames == a.high_frames
            && ended.high_buffers == a.high_buffers && ended.limits == a.limits,
{
}

/// A scope is running until it is ended, and ends as what came first: a fault, else a teardown
/// or an abort before the start.
pub proof fn a_scope_ends_as_what_ended_it(a: Accounts)
    ensures
        a.finalization is None <==> a.ended_as() is None,
        a.finalization is None <==> a.end_state() == TerminalState::Running,
        a.finalization matches Some(finalization) ==> {
            &&& a.end_state() == (TerminalState::Finalized { finalization })
            &&& a.fault matches Some(fault) ==> a.ended_as() == Some(
                RendererTerminal::Faulted(fault),
            )
            &&& a.fault is None && finalization.winner is Teardown ==> a.ended_as() == Some(
                RendererTerminal::Finished,
            )
            &&& a.fault is None && finalization.winner is PreStartAbort ==> a.ended_as() == Some(
                RendererTerminal::Aborted,
            )
        },
{
}

/// Scopes are numbered one after the other, and a new one begins only where the last one has
/// ended. An operation is for the scope that was minted last: every other one is stale, and
/// leaves the accounts alone.
pub proof fn only_the_last_scope_is_served(
    minted: Minted,
    scope: PlayerScope,
    step: AccountStep,
    frames: usize,
    after: Minted,
)
    requires
        minted.steps_to(scope, step, after),
    ensures
        minted.next() matches Some(next) ==> next.id == minted.id + 1 && (minted.id > 0
            ==> minted.accounts.finalization is Some),
        minted.next() is None <==> (minted.id > 0 && minted.accounts.finalization is None)
            || minted.id == u64::MAX,
        scope.id != minted.id ==> after == minted && minted.answer(scope)
            == RendererOperationOutcome::StaleScope && minted.enqueue_answer(scope, frames)
            == EnqueueOutcome::StaleScope,
        scope.id == minted.id ==> {
            &&& minted.answer(scope) == RendererOperationOutcome::Applied
                <==> !minted.accounts.closed
            &&& minted.answer(scope) == RendererOperationOutcome::Closed <==> minted.accounts.closed
            &&& after.id == minted.id
            &&& minted.accounts.refusal(frames) matches Some(refused) ==> minted.enqueue_answer(
                scope,
                frames,
            ) == refused
            &&& minted.accounts.refusal(frames) is None ==> (minted.enqueue_answer(scope, frames)
                matches EnqueueOutcome::Accepted { queued_frames, queued_buffers }
                && queued_frames == minted.accounts.frames + frames && queued_buffers
                == minted.accounts.buffers + 1)
        },
{
}

} // verus!
