//! What the owner of a renderer answers, told of the scope that it holds when it is asked.
use crate::audio::owner::{
    Accounts, CallbackPermit, EnqueueOutcome, Minted, OwnerState, PlayerScope, PreStartAbortOutcome,
    RendererCapacity, RendererFault, RendererHealth, RendererOperationOutcome, RendererOwner,
    RendererQueueLimits, TerminalOutcome, TerminalState, TerminalWinner,
};
use crate::audio::ScheduledArmOutcome;
use vstd::prelude::*;

verus! {

/// A scope begins open, without a fault and with nothing counted, under the limits of its owner.
pub open spec fn is_untouched(a: Accounts, limits: RendererQueueLimits) -> bool {
    &&& a.limits == limits
    &&& !a.closed && a.fault is None && a.finalization is None
    &&& a.frames == 0 && a.buffers == 0 && a.high_frames == 0 && a.high_buffers == 0
    &&& a.callbacks == 0 && a.underrun_frames == 0 && a.last_boundary is None
}

/// The scopes of an owner are numbered one after the other. The next one begins where the last one
/// was ended, with nothing counted; where it was not, none begins and nothing changes.
pub proof fn a_new_scope_begins_untouched(minted: &mut Minted, scope: Option<PlayerScope>)
    requires
        call_ensures(Minted::mint, (minted,), scope),
    ensures
        scope is Some <==> old(minted).id < u64::MAX && (old(minted).id == 0 || old(
            minted,
        ).accounts.finalization is Some),
        scope matches Some(s) ==> s.id == old(minted).id + 1 && final(minted).id == s.id
            && is_untouched(final(minted).accounts, old(minted).accounts.limits),
        scope is None ==> *final(minted) == *old(minted),
{
}

/// An owner that is made open has the first scope, which is untouched.
pub proof fn an_opened_owner_has_the_first_scope(
    limits: RendererQueueLimits,
    opened: (RendererOwner, PlayerScope),
)
    requires
        call_ensures(RendererOwner::opened, (limits,), opened),
    ensures
        opened.1.id == 1,
        opened.0.limits() == limits,
        exists|state: OwnerState| #[trigger]
            opened.0.begins_with(state, 1) && state.is_fresh() && state.book.id == 1
                && is_untouched(state.book.accounts, limits),
{
}

/// An owner that is made without a scope is closed until one is minted.
pub proof fn a_new_owner_has_no_scope(limits: RendererQueueLimits, owner: RendererOwner)
    requires
        call_ensures(RendererOwner::new, (limits,), owner),
    ensures
        owner.limits() == limits,
        exists|state: OwnerState| #[trigger]
            owner.begins_with(state, 0) && state.is_fresh() && state.book.id == 0
                && state.book.accounts.closed && state.book.accounts.frames == 0
                && state.book.accounts.buffers == 0 && state.book.accounts.finalization is None,
{
}

/// A scope that is minted has the next number, an untouched account, and a control and a count of
/// its own. Its number is open then.
pub proof fn a_minted_scope_is_the_next(owner: RendererOwner, scope: Option<PlayerScope>)
    requires
        call_ensures(RendererOwner::mint_scope, (&owner,), scope),
    ensures
        exists|before: OwnerState, after: OwnerState| #[trigger]
            owner.turns(before, after) && {
                &&& scope is Some <==> before.book.id < u64::MAX && (before.book.id == 0
                    || before.book.accounts.finalization is Some)
                &&& scope matches Some(s) ==> s.id == before.book.id + 1 && after.book.id == s.id
                    && is_untouched(after.book.accounts, before.book.accounts.limits)
                    && after.is_fresh() && owner.opens(s.id)
                &&& scope is None ==> after == before
            },
{
}

/// A buffer is taken for the scope that is held, where it is open and the buffer fits: its frames
/// and itself are added, and the answer says how much is queued then. Every other request changes
/// nothing, and says why.
pub proof fn a_buffer_is_answered_by_the_scope_that_is_held(
    owner: RendererOwner,
    scope: PlayerScope,
    frames: usize,
    outcome: EnqueueOutcome,
)
    requires
        call_ensures(RendererOwner::enqueue, (&owner, scope, frames), outcome),
    ensures
        exists|before: OwnerState, after: OwnerState| #[trigger]
            owner.turns(before, after) && {
                let a = before.book.accounts;
                let fits = frames <= a.limits.chunk() && a.frames + frames <= a.limits.frames()
                    && a.buffers < a.limits.buffers();
                &&& after.gate == before.gate && after.consumed == before.consumed
                &&& after.book.id == before.book.id
                &&& before.book.id != scope.id <==> outcome == EnqueueOutcome::StaleScope
                &&& before.book.id == scope.id ==> {
                    &&& outcome == EnqueueOutcome::Closed <==> a.closed
                    &&& outcome == EnqueueOutcome::InvalidBuffer <==> !a.closed && frames == 0
                    &&& outcome == (EnqueueOutcome::Full {
                        queued_frames: a.frames,
                        queued_buffers: a.buffers,
                    }) <==> !a.closed && frames > 0 && !fits
                    &&& outcome is Accepted <==> !a.closed && frames > 0 && fits
                }
                &&& outcome matches EnqueueOutcome::Accepted { queued_frames, queued_buffers } ==> {
                    &&& queued_frames == a.frames + frames && queued_buffers == a.buffers + 1
                    &&& after.book.accounts.frames == queued_frames
                    &&& after.book.accounts.buffers == queued_buffers
                    &&& after.book.accounts.closed == a.closed
                }
                &&& !(outcome is Accepted) ==> after == before
            },
{
}

/// A queue that is reconciled is held as it was told, where its scope is open.
pub proof fn a_reconciled_queue_is_held_as_told(
    owner: RendererOwner,
    scope: PlayerScope,
    frames: usize,
    buffers: usize,
    outcome: RendererOperationOutcome,
)
    requires
        call_ensures(RendererOwner::reconcile_queue, (&owner, scope, frames, buffers), outcome),
    ensures
        exists|before: OwnerState, after: OwnerState| #[trigger]
            owner.turns(before, after) && {
                let a = before.book.accounts;
                let b = after.book.accounts;
                &&& outcome == RendererOperationOutcome::StaleScope <==> before.book.id != scope.id
                &&& outcome == RendererOperationOutcome::Closed <==> before.book.id == scope.id
                    && a.closed
                &&& outcome != RendererOperationOutcome::Applied ==> after == before
                &&& outcome == RendererOperationOutcome::Applied ==> {
                    &&& b.frames == frames && b.buffers == buffers
                    &&& b.high_frames >= frames && b.high_frames >= a.high_frames
                    &&& b.high_frames == frames || b.high_frames == a.high_frames
                    &&& b.high_buffers >= buffers && b.high_buffers >= a.high_buffers
                    &&& b.high_buffers == buffers || b.high_buffers == a.high_buffers
                    &&& b.callbacks == a.callbacks && b.underrun_frames == a.underrun_frames
                    &&& after.book.id == before.book.id && after.keeps(before)
                }
            },
{
}

/// Frames that were played are taken off the queue and counted for their scope, where it is open.
pub proof fn played_frames_are_counted_for_their_scope(
    owner: RendererOwner,
    scope: PlayerScope,
    frames: usize,
    outcome: RendererOperationOutcome,
)
    requires
        call_ensures(RendererOwner::consume, (&owner, scope, frames), outcome),
    ensures
        exists|before: OwnerState, after: OwnerState| #[trigger]
            owner.turns(before, after) && {
                let a = before.book.accounts;
                let b = after.book.accounts;
                &&& outcome == RendererOperationOutcome::StaleScope <==> before.book.id != scope.id
                &&& outcome == RendererOperationOutcome::Closed <==> before.book.id == scope.id
                    && a.closed
                &&& outcome != RendererOperationOutcome::Applied ==> after == before
                &&& outcome == RendererOperationOutcome::Applied ==> {
                    &&& b.frames == if frames >= a.frames {
                        0
                    } else {
                        a.frames - frames
                    }
                    &&& b.buffers == if frames >= a.frames {
                        0
                    } else {
                        a.buffers
                    }
                    &&& b == (Accounts { frames: b.frames, buffers: b.buffers, ..a })
                    &&& crate::audio::synced_player::shared::added(
                        *before.consumed,
                        frames as u64,
                    )
                    &&& after.book.id == before.book.id && after.keeps(before)
                }
            },
{
}

/// A callback is counted once for its scope, with what it played, what it lacked and the boundary
/// that it knew, where the scope is open.
pub proof fn a_callback_is_counted_for_its_scope(
    owner: RendererOwner,
    scope: PlayerScope,
    frames: usize,
    underrun: u64,
    boundary: Option<i64>,
    outcome: RendererOperationOutcome,
)
    requires
        call_ensures(
            RendererOwner::record_callback,
            (&owner, scope, frames, underrun, boundary),
            outcome,
        ),
    ensures
        exists|before: OwnerState, after: OwnerState| #[trigger]
            owner.turns(before, after) && {
                let a = before.book.accounts;
                let b = after.book.accounts;
                &&& outcome == RendererOperationOutcome::StaleScope <==> before.book.id != scope.id
                &&& outcome == RendererOperationOutcome::Closed <==> before.book.id == scope.id
                    && a.closed
                &&& outcome != RendererOperationOutcome::Applied ==> after == before
                &&& outcome == RendererOperationOutcome::Applied ==> {
                    &&& a.callbacks < u64::MAX ==> b.callbacks == a.callbacks + 1
                    &&& a.underrun_frames + underrun <= u64::MAX ==> b.underrun_frames
                        == a.underrun_frames + underrun
                    &&& b.last_boundary == if boundary is Some {
                        boundary
                    } else {
                        a.last_boundary
                    }
                    &&& frames < a.frames ==> b.frames == a.frames - frames && b.buffers
                        == a.buffers
                    &&& frames >= a.frames ==> b.frames == 0 && b.buffers == 0
                    &&& b.high_frames == a.high_frames && b.high_buffers == a.high_buffers
                    &&& crate::audio::synced_player::shared::added(
                        *before.consumed,
                        frames as u64,
                    )
                    &&& after.book.id == before.book.id && after.keeps(before)
                }
            },
{
}

/// A fault closes the scope that is held and is kept, where it was open. Control is closed and no
/// scope is open from then on. A fault of another scope changes nothing.
pub proof fn a_fault_closes_its_scope(
    owner: RendererOwner,
    scope: PlayerScope,
    fault: RendererFault,
    outcome: RendererOperationOutcome,
)
    requires
        call_ensures(RendererOwner::fault, (&owner, scope, fault), outcome),
    ensures
        exists|before: OwnerState, after: OwnerState| #[trigger]
            owner.turns(before, after) && {
                let a = before.book.accounts;
                &&& outcome == RendererOperationOutcome::StaleScope <==> before.book.id != scope.id
                &&& outcome == RendererOperationOutcome::Closed <==> before.book.id == scope.id
                    && a.closed
                &&& before.book.id == scope.id ==> owner.opens(0) && after.book.accounts.closed
                &&& outcome == RendererOperationOutcome::Applied ==> after.book.accounts == (
                Accounts { closed: true, fault: Some(fault), ..a })
                &&& outcome != RendererOperationOutcome::Applied ==> after.book == before.book
            },
{
}

/// A close closes the scope that is held and changes nothing else of it. Control is closed and no
/// scope is open from then on. A close of another scope changes nothing.
pub proof fn a_close_closes_its_scope(
    owner: RendererOwner,
    scope: PlayerScope,
    outcome: RendererOperationOutcome,
)
    requires
        call_ensures(RendererOwner::close, (&owner, scope), outcome),
    ensures
        exists|before: OwnerState, after: OwnerState| #[trigger]
            owner.turns(before, after) && {
                let a = before.book.accounts;
                &&& outcome == RendererOperationOutcome::StaleScope <==> before.book.id != scope.id
                &&& outcome == RendererOperationOutcome::Closed <==> before.book.id == scope.id
                    && a.closed
                &&& before.book.id == scope.id ==> owner.opens(0) && after.book.accounts == (
                Accounts { closed: true, ..a })
                &&& before.book.id != scope.id ==> after.book == before.book
            },
{
}

/// A teardown ends the scope that is held, once: it is closed and holds nothing then, and the
/// answer is the end. What was ended before stays as it ended, and says so.
pub proof fn a_teardown_ends_its_scope_once(
    owner: RendererOwner,
    scope: PlayerScope,
    outcome: TerminalOutcome,
)
    requires
        call_ensures(RendererOwner::teardown, (&owner, scope), outcome),
    ensures
        exists|before: OwnerState, after: OwnerState| #[trigger]
            owner.turns(before, after) && {
                let a = before.book.accounts;
                let b = after.book.accounts;
                &&& outcome == TerminalOutcome::StaleScope <==> before.book.id != scope.id
                &&& before.book.id == scope.id ==> owner.opens(0)
                &&& outcome is Won <==> before.book.id == scope.id && a.finalization is None
                &&& outcome matches TerminalOutcome::Won(finalization) ==> b.finalization == Some(
                    finalization,
                ) && finalization.winner == TerminalWinner::Teardown && b.closed && b.frames == 0
                    && b.buffers == 0 && b.fault == a.fault
                &&& outcome matches TerminalOutcome::AlreadyFinalized(finalization)
                    ==> a.finalization == Some(finalization)
                &&& !(outcome is Won) ==> after.book == before.book
            },
{
}

/// An abort before the start ends the scope that is held, once, unless its start was won: then
/// nothing changes, and the boundary is told. What was ended before stays as it ended.
pub proof fn an_abort_ends_its_scope_before_the_start(
    owner: RendererOwner,
    scope: PlayerScope,
    outcome: PreStartAbortOutcome,
)
    requires
        call_ensures(RendererOwner::abort_before_start, (&owner, scope), outcome),
    ensures
        exists|before: OwnerState, after: OwnerState| #[trigger]
            owner.turns(before, after) && {
                let a = before.book.accounts;
                let b = after.book.accounts;
                &&& outcome == PreStartAbortOutcome::StaleScope <==> before.book.id != scope.id
                &&& outcome matches PreStartAbortOutcome::Won(finalization) ==> {
                    &&& a.finalization is None && b.finalization == Some(finalization)
                    &&& finalization.winner == TerminalWinner::PreStartAbort
                    &&& b.closed && b.frames == 0 && b.buffers == 0 && b.fault == a.fault
                    &&& owner.opens(0)
                }
                &&& outcome matches PreStartAbortOutcome::AlreadyFinalized(finalization)
                    ==> a.finalization == Some(finalization) && owner.opens(0)
                &&& outcome matches PreStartAbortOutcome::BoundaryWon { start_at_zone_us }
                    ==> before.gate.reads_boundary(start_at_zone_us)
                &&& !(outcome is Won) ==> after.book == before.book
            },
{
}

/// A clear gives up what is queued for the scope that is held, where it is open and control was
/// cleared; where control was busy, nothing changes and it is to be tried again.
pub proof fn a_clear_gives_up_what_is_queued(
    owner: RendererOwner,
    scope: PlayerScope,
    result: Result<RendererOperationOutcome, ()>,
)
    requires
        call_ensures(RendererOwner::clear, (&owner, scope), result),
    ensures
        exists|before: OwnerState, after: OwnerState| #[trigger]
            owner.turns(before, after) && {
                let a = before.book.accounts;
                let b = after.book.accounts;
                &&& result == Ok::<RendererOperationOutcome, ()>(
                    RendererOperationOutcome::StaleScope,
                ) <==> before.book.id != scope.id
                &&& result == Ok::<RendererOperationOutcome, ()>(
                    RendererOperationOutcome::Closed,
                ) <==> before.book.id == scope.id && a.closed
                &&& result == Ok::<RendererOperationOutcome, ()>(
                    RendererOperationOutcome::Applied,
                ) ==> b == (Accounts { frames: 0, buffers: 0, ..a })
                &&& result != Ok::<RendererOperationOutcome, ()>(
                    RendererOperationOutcome::Applied,
                ) ==> after.book == before.book
            },
{
}

/// The health of a scope tells its accounts, figure by figure; that of another scope is stale.
pub proof fn a_scope_is_told_as_it_is(
    owner: RendererOwner,
    scope: PlayerScope,
    health: Result<RendererHealth, RendererOperationOutcome>,
    capacity: Result<RendererCapacity, RendererOperationOutcome>,
    state: Result<TerminalState, RendererOperationOutcome>,
)
    requires
        call_ensures(RendererOwner::health, (&owner, scope), health),
        call_ensures(RendererOwner::capacity, (&owner, scope), capacity),
        call_ensures(RendererOwner::terminal_state, (&owner, scope), state),
    ensures
        exists|found: OwnerState| #[trigger]
            owner.turns(found, found) && {
                &&& health is Ok <==> found.book.id == scope.id
                &&& health matches Err(error) ==> error == RendererOperationOutcome::StaleScope
                &&& health matches Ok(h) ==> {
                    &&& forall|n: usize|
                        call_ensures(RendererHealth::queued_frames, (&h,), n) ==> n
                            == found.book.accounts.frames
                    &&& forall|n: usize|
                        call_ensures(RendererHealth::queued_buffers, (&h,), n) ==> n
                            == found.book.accounts.buffers
                    &&& forall|n: u64|
                        call_ensures(RendererHealth::callback_count, (&h,), n) ==> n
                            == found.book.accounts.callbacks
                    &&& forall|n: u64|
                        call_ensures(RendererHealth::underrun_frames, (&h,), n) ==> n
                            == found.book.accounts.underrun_frames
                    &&& forall|n: Option<i64>|
                        call_ensures(
                            RendererHealth::last_presentation_boundary_zone_us,
                            (&h,),
                            n,
                        ) ==> n == found.book.accounts.last_boundary
                    &&& forall|n: Option<RendererFault>|
                        call_ensures(RendererHealth::fault, (&h,), n) ==> n
                            == found.book.accounts.fault
                    &&& forall|n: PlayerScope|
                        call_ensures(RendererHealth::scope, (&h,), n) ==> n == scope
                    &&& forall|n: RendererQueueLimits|
                        call_ensures(RendererHealth::limits, (&h,), n) ==> n
                            == found.book.accounts.limits
                }
            },
        exists|found: OwnerState| #[trigger]
            owner.turns(found, found) && {
                &&& capacity is Ok <==> found.book.id == scope.id
                &&& capacity matches Err(error) ==> error == RendererOperationOutcome::StaleScope
                &&& capacity matches Ok(c) ==> {
                    &&& forall|n: usize|
                        call_ensures(RendererCapacity::hard_frames, (&c,), n) ==> n
                            == owner.limits().frames()
                    &&& forall|n: usize|
                        call_ensures(RendererCapacity::hard_buffers, (&c,), n) ==> n
                            == owner.limits().buffers()
                    &&& forall|n: usize|
                        call_ensures(RendererCapacity::current_frames, (&c,), n) ==> n
                            == found.book.accounts.frames
                    &&& forall|n: usize|
                        call_ensures(RendererCapacity::current_buffers, (&c,), n) ==> n
                            == found.book.accounts.buffers
                    &&& forall|n: usize|
                        call_ensures(RendererCapacity::high_water_frames, (&c,), n) ==> n
                            == found.book.accounts.high_frames
                    &&& forall|n: usize|
                        call_ensures(RendererCapacity::high_water_buffers, (&c,), n) ==> n
                            == found.book.accounts.high_buffers
                }
            },
        exists|found: OwnerState| #[trigger]
            owner.turns(found, found) && {
                &&& state is Ok <==> found.book.id == scope.id
                &&& state matches Err(error) ==> error == RendererOperationOutcome::StaleScope
                &&& state == Ok::<TerminalState, RendererOperationOutcome>(
                    TerminalState::Running,
                ) ==> found.book.accounts.finalization is None
                &&& state matches Ok(TerminalState::Finalized { finalization })
                    ==> found.book.accounts.finalization == Some(finalization)
            },
{
}

/// A start is armed for the scope that is held, where it is open: as its control answers. A stale or
/// closed scope is told so.
pub proof fn a_start_is_armed_for_its_scope(
    owner: RendererOwner,
    scope: PlayerScope,
    boundary: i64,
    result: Result<ScheduledArmOutcome, ()>,
)
    requires
        call_ensures(RendererOwner::arm_scheduled_start, (&owner, scope, boundary), result),
    ensures
        exists|found: OwnerState| #[trigger]
            owner.turns(found, found) && {
                &&& found.book.id != scope.id ==> result == Ok::<ScheduledArmOutcome, ()>(
                    ScheduledArmOutcome::StaleScope,
                )
                &&& found.book.id == scope.id && found.book.accounts.closed ==> result == Ok::<
                    ScheduledArmOutcome,
                    (),
                >(ScheduledArmOutcome::Closed)
                &&& found.book.id == scope.id && !found.book.accounts.closed ==> found.gate.arms(
                    boundary,
                    result,
                )
            },
{
}

/// A scope needs a closer look, and gives no permit to a callback, exactly where another number is
/// open.
pub proof fn a_permit_is_given_where_the_scope_is_open(
    owner: RendererOwner,
    scope: PlayerScope,
    needs: bool,
    permit: Option<CallbackPermit>,
)
    requires
        call_ensures(RendererOwner::needs_terminal_check, (&owner, scope), needs),
        call_ensures(RendererOwner::try_callback_permit, (&owner, scope), permit),
    ensures
        exists|id: u64| #[trigger] owner.reads_open(id) && (needs <==> id != scope.id),
        exists|id: u64| #[trigger] owner.reads_open(id) && (permit is Some <==> id == scope.id),
        permit matches Some(p) ==> p.of() == owner && p.for_scope() == scope,
{
}

/// What a permitted callback played is counted once for its scope, and what is queued is held as it
/// tells, where the scope is open.
pub proof fn permitted_progress_is_counted_and_held(
    permit: CallbackPermit,
    frames: usize,
    boundary: Option<i64>,
    queued_frames: usize,
    queued_buffers: usize,
    outcome: RendererOperationOutcome,
)
    requires
        call_ensures(
            CallbackPermit::record_actual_progress,
            (&permit, frames, boundary, queued_frames, queued_buffers),
            outcome,
        ),
    ensures
        exists|before: OwnerState, after: OwnerState| #[trigger]
            permit.of().turns(before, after) && {
                let a = before.book.accounts;
                let b = after.book.accounts;
                let counts = before.book.id == permit.for_scope().id && !a.closed;
                &&& !counts ==> after == before && outcome != RendererOperationOutcome::Applied
                &&& counts ==> {
                    &&& a.callbacks < u64::MAX ==> b.callbacks == a.callbacks + 1
                    &&& b.underrun_frames == a.underrun_frames
                    &&& b.last_boundary == if boundary is Some {
                        boundary
                    } else {
                        a.last_boundary
                    }
                }
            },
        outcome == RendererOperationOutcome::Applied ==> exists|
            before: OwnerState,
            after: OwnerState,
        | #[trigger]
            permit.of().turns(before, after) && before.book.id == permit.for_scope().id
                && after.book.accounts.frames == queued_frames && after.book.accounts.buffers
                == queued_buffers && after.book.accounts.callbacks
                == before.book.accounts.callbacks,
{
}

/// Limits are made of a bound on frames and one on buffers, neither of them zero, and on the frames of
/// one buffer, which may not be more than all. They admit a buffer exactly where it has frames, no more
/// than one may have, and fits beside what is queued.
pub proof fn limits_admit_what_fits(
    hard_frames: usize,
    hard_buffers: usize,
    max_chunk_frames: usize,
    limits: Option<RendererQueueLimits>,
    queued_frames: usize,
    queued_buffers: usize,
    frames: usize,
    fits: bool,
)
    requires
        call_ensures(
            RendererQueueLimits::new,
            (hard_frames, hard_buffers, max_chunk_frames),
            limits,
        ),
        limits matches Some(l) ==> call_ensures(
            RendererQueueLimits::admits,
            (&l, queued_frames, queued_buffers, frames),
            fits,
        ),
    ensures
        limits is Some <==> hard_frames > 0 && hard_buffers > 0 && max_chunk_frames > 0
            && max_chunk_frames <= hard_frames,
        limits is Some ==> (fits <==> frames > 0 && frames <= max_chunk_frames && queued_frames
            + frames <= hard_frames && queued_buffers < hard_buffers),
{
}

} // verus!
