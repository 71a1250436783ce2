//! The owner of a renderer: who may play, how much may be queued, and how it
//! ends.
//!
//! `Accounts` is the bookkeeping of one scope, as a plain value. `RendererOwner`
//! shares it between threads under a lock, together with the scope's gate and
//! its counter of consumed frames.
use crate::audio::synced_player::handoff_probe::start::answers;
use crate::audio::synced_player::ingress::control::{cancelled_control, control};
use crate::audio::synced_player::ingress::{closed_always, ControlGate};
use crate::audio::synced_player::shared::{added, added_to, got_u64, made_u64, put_u64};
use crate::audio::{ScheduledArmOutcome, ScheduledStartOutcome, StartState};
use std::sync::atomic::{AtomicU64, Ordering};
use std::sync::Arc;
use vstd::prelude::*;
use vstd::rwlock::{RwLock, RwLockPredicate, WriteHandle};

verus! {

/// One life of a renderer. A scope that has been replaced is stale.
#[derive(Clone, Copy, Debug, PartialEq, Eq, Structural)]
pub struct PlayerScope {
    pub id: u64,
}

/// How much may be queued: frames and buffers in all, and frames in one buffer.
#[derive(Clone, Copy, Debug, PartialEq, Eq, Structural)]
pub struct RendererQueueLimits {
    hard_frames: usize,
    hard_buffers: usize,
    max_chunk_frames: usize,
}

impl RendererQueueLimits {
    pub closed spec fn frames(self) -> usize {
        self.hard_frames
    }

    pub closed spec fn buffers(self) -> usize {
        self.hard_buffers
    }

    pub closed spec fn chunk(self) -> usize {
        self.max_chunk_frames
    }

    /// Every limit is positive, and one buffer fits.
    pub fn new(hard_frames: usize, hard_buffers: usize, max_chunk_frames: usize) -> (limits: Option<
        RendererQueueLimits,
    >)
        ensures
            limits is Some <==> hard_frames > 0 && hard_buffers > 0 && 0 < max_chunk_frames
                <= hard_frames,
            limits matches Some(l) ==> l.frames() == hard_frames && l.buffers() == hard_buffers
                && l.chunk() == max_chunk_frames,
    {
        if hard_frames == 0 || hard_buffers == 0 || max_chunk_frames == 0 || max_chunk_frames
            > hard_frames {
            None
        } else {
            Some(RendererQueueLimits { hard_frames, hard_buffers, max_chunk_frames })
        }
    }

    pub fn hard_frames(&self) -> (frames: usize)
        ensures
            frames == self.frames(),
    {
        self.hard_frames
    }

    pub fn hard_buffers(&self) -> (buffers: usize)
        ensures
            buffers == self.buffers(),
    {
        self.hard_buffers
    }

    pub fn max_chunk_frames(&self) -> (frames: usize)
        ensures
            frames == self.chunk(),
    {
        self.max_chunk_frames
    }

    /// Whether a buffer fits beside what is queued.
    pub open spec fn fits(self, queued_frames: int, queued_buffers: int, frames: int) -> bool {
        &&& 0 < frames <= self.chunk()
        &&& queued_frames + frames <= self.frames()
        &&& queued_buffers + 1 <= self.buffers()
    }

    pub fn admits(&self, queued_frames: usize, queued_buffers: usize, frames: usize) -> (fits: bool)
        ensures
            fits == self.fits(queued_frames as int, queued_buffers as int, frames as int),
    {
        let frames_fit: bool = match queued_frames.checked_add(frames) {
            Some(total) => total <= self.hard_frames,
            None => false,
        };
        let buffers_fit: bool = match queued_buffers.checked_add(1) {
            Some(total) => total <= self.hard_buffers,
            None => false,
        };
        frames > 0 && frames <= self.max_chunk_frames && frames_fit && buffers_fit
    }
}

/// The answer to a buffer that is handed in.
#[derive(Clone, Copy, Debug, PartialEq, Eq, Structural)]
pub enum EnqueueOutcome {
    Accepted { queued_frames: usize, queued_buffers: usize },
    Full { queued_frames: usize, queued_buffers: usize },
    Closed,
    StaleScope,
    FormatMismatch,
    InvalidBuffer,
}

/// The answer to an operation on a scope.
#[derive(Clone, Copy, Debug, PartialEq, Eq, Structural)]
pub enum RendererOperationOutcome {
    Applied,
    Closed,
    StaleScope,
}

/// Why a renderer failed.
#[derive(Clone, Copy, Debug, PartialEq, Eq, Structural)]
pub enum RendererFault {
    OutputInvalidated,
    CallbackFailed,
    OutputContractRejected,
}

/// How a renderer ended.
#[derive(Clone, Copy, Debug, PartialEq, Eq, Structural)]
pub enum RendererTerminal {
    Finished,
    Aborted,
    Faulted(RendererFault),
}

/// Who ended it.
#[derive(Clone, Copy, Debug, PartialEq, Eq, Structural)]
pub enum TerminalWinner {
    Teardown,
    PreStartAbort,
}

/// What had stopped when a renderer ended.
#[derive(Clone, Copy, Debug, PartialEq, Eq, Structural)]
pub struct TerminalAck {
    released: bool,
    stopped: bool,
}

impl TerminalAck {
    /// Whether the stream was released, and whether its callback had stopped.
    pub closed spec fn says(self) -> (bool, bool) {
        (self.released, self.stopped)
    }

    pub fn stream_released(&self) -> (released: bool)
        ensures
            released == self.says().0,
    {
        self.released
    }

    pub fn callback_stopped(&self) -> (stopped: bool)
        ensures
            stopped == self.says().1,
    {
        self.stopped
    }
}

/// The end of a scope, as its one winner recorded it.
#[derive(Clone, Copy, Debug, PartialEq, Eq, Structural)]
pub struct Finalization {
    pub winner: TerminalWinner,
    pub ack: TerminalAck,
}

#[derive(Clone, Copy, Debug, PartialEq, Eq, Structural)]
pub enum TerminalOutcome {
    Won(Finalization),
    AlreadyFinalized(Finalization),
    StaleScope,
}

#[derive(Clone, Copy, Debug, PartialEq, Eq, Structural)]
pub enum PreStartAbortOutcome {
    Won(Finalization),
    AlreadyFinalized(Finalization),
    BoundaryWon { start_at_zone_us: i64 },
    StaleScope,
}

#[derive(Clone, Copy, Debug, PartialEq, Eq, Structural)]
pub enum TerminalState {
    Running,
    Finalized { finalization: Finalization },
}

/// The bookkeeping of one scope.
#[derive(Clone, Copy, Debug, PartialEq, Eq, Structural)]
pub struct Accounts {
    pub limits: RendererQueueLimits,
    pub closed: bool,
    pub fault: Option<RendererFault>,
    pub frames: usize,
    pub buffers: usize,
    pub high_frames: usize,
    pub high_buffers: usize,
    pub callbacks: u64,
    pub underrun_frames: u64,
    pub last_boundary: Option<i64>,
    pub finalization: Option<Finalization>,
}

/// The larger of two counts.
pub open spec fn larger(a: usize, b: usize) -> usize {
    if a >= b {
        a
    } else {
        b
    }
}

/// The nearest count that can be held.
pub open spec fn tallied(a: u64, b: u64) -> u64 {
    if a + b <= u64::MAX {
        (a + b) as u64
    } else {
        u64::MAX
    }
}

impl Accounts {
    /// High water is never below the present, an end closes, and a fault closes.
    pub open spec fn well_kept(self) -> bool {
        &&& self.frames <= self.high_frames
        &&& self.buffers <= self.high_buffers
        &&& self.fault is Some ==> self.closed
        &&& self.finalization is Some ==> self.closed
    }

    pub open spec fn opened(limits: RendererQueueLimits) -> Accounts {
        Accounts {
            limits,
            closed: false,
            fault: None,
            frames: 0,
            buffers: 0,
            high_frames: 0,
            high_buffers: 0,
            callbacks: 0,
            underrun_frames: 0,
            last_boundary: None,
            finalization: None,
        }
    }

    pub fn new(limits: RendererQueueLimits) -> (accounts: Accounts)
        ensures
            accounts == Accounts::opened(limits),
            accounts.well_kept(),
    {
        Accounts {
            limits,
            closed: false,
            fault: None,
            frames: 0,
            buffers: 0,
            high_frames: 0,
            high_buffers: 0,
            callbacks: 0,
            underrun_frames: 0,
            last_boundary: None,
            finalization: None,
        }
    }

    /// The accounts with what is queued now.
    pub open spec fn holding(self, frames: usize, buffers: usize) -> Accounts {
        Accounts {
            frames,
            buffers,
            high_frames: larger(self.high_frames, frames),
            high_buffers: larger(self.high_buffers, buffers),
            ..self
        }
    }

    /// Take over what is queued now.
    pub fn hold(&mut self, frames: usize, buffers: usize)
        ensures
            *final(self) == old(self).holding(frames, buffers),
            old(self).well_kept() ==> final(self).well_kept(),
    {
        self.frames = frames;
        self.buffers = buffers;
        if frames > self.high_frames {
            self.high_frames = frames;
        }
        if buffers > self.high_buffers {
            self.high_buffers = buffers;
        }
    }

    /// Why a buffer of so many frames is turned away, if it is.
    pub open spec fn refusal(self, frames: usize) -> Option<EnqueueOutcome> {
        if self.closed {
            Some(EnqueueOutcome::Closed)
        } else if frames == 0 {
            Some(EnqueueOutcome::InvalidBuffer)
        } else if !self.limits.fits(self.frames as int, self.buffers as int, frames as int) {
            Some(
                EnqueueOutcome::Full { queued_frames: self.frames, queued_buffers: self.buffers },
            )
        } else {
            None
        }
    }

    pub fn refuse(&self, frames: usize) -> (outcome: Option<EnqueueOutcome>)
        ensures
            outcome == self.refusal(frames),
    {
        if self.closed {
            Some(EnqueueOutcome::Closed)
        } else if frames == 0 {
            Some(EnqueueOutcome::InvalidBuffer)
        } else if !self.limits.admits(self.frames, self.buffers, frames) {
            Some(
                EnqueueOutcome::Full { queued_frames: self.frames, queued_buffers: self.buffers },
            )
        } else {
            None
        }
    }

    /// Account for a buffer. One that is turned away changes nothing.
    pub fn enqueue(&mut self, frames: usize) -> (outcome: EnqueueOutcome)
        ensures
            match old(self).refusal(frames) {
                Some(refused) => outcome == refused && *final(self) == *old(self),
                None => *final(self) == old(self).holding(
                    (old(self).frames + frames) as usize,
                    (old(self).buffers + 1) as usize,
                ) && outcome == (EnqueueOutcome::Accepted {
                    queued_frames: (old(self).frames + frames) as usize,
                    queued_buffers: (old(self).buffers + 1) as usize,
                }),
            },
            old(self).well_kept() ==> final(self).well_kept(),
    {
        match self.refuse(frames) {
            Some(refused) => refused,
            None => {
                let queued_frames: usize = self.frames + frames;
                let queued_buffers: usize = self.buffers + 1;
                self.hold(queued_frames, queued_buffers);
                EnqueueOutcome::Accepted { queued_frames, queued_buffers }
            },
        }
    }

    /// The accounts after frames have been played: an empty queue holds no buffer.
    pub open spec fn drained(self, frames: usize) -> Accounts {
        let left = if frames >= self.frames {
            0usize
        } else {
            (self.frames - frames) as usize
        };
        Accounts {
            frames: left,
            buffers: if left == 0 {
                0
            } else {
                self.buffers
            },
            ..self
        }
    }

    pub fn consume(&mut self, frames: usize) -> (outcome: RendererOperationOutcome)
        ensures
            old(self).closed ==> outcome == RendererOperationOutcome::Closed && *final(self)
                == *old(self),
            !old(self).closed ==> outcome == RendererOperationOutcome::Applied && *final(self)
                == old(self).drained(frames),
            old(self).well_kept() ==> final(self).well_kept(),
    {
        if self.closed {
            return RendererOperationOutcome::Closed;
        }
        self.frames = if frames >= self.frames {
            0
        } else {
            self.frames - frames
        };
        if self.frames == 0 {
            self.buffers = 0;
        }
        RendererOperationOutcome::Applied
    }

    /// Account for one callback: frames played, frames missed, and the boundary it
    /// presented, if it knew one.
    pub fn record_callback(&mut self, frames: usize, underrun: u64, boundary: Option<i64>) -> (
    outcome: RendererOperationOutcome)
        ensures
            old(self).closed ==> outcome == RendererOperationOutcome::Closed && *final(self)
                == *old(self),
            !old(self).closed ==> outcome == RendererOperationOutcome::Applied && *final(self) == (
            Accounts {
                callbacks: tallied(old(self).callbacks, 1),
                underrun_frames: tallied(old(self).underrun_frames, underrun),
                last_boundary: if boundary is Some {
                    boundary
                } else {
                    old(self).last_boundary
                },
                ..old(self).drained(frames)
            }),
            old(self).well_kept() ==> final(self).well_kept(),
    {
        match self.consume(frames) {
            RendererOperationOutcome::Applied => {
                self.callbacks = self.callbacks.saturating_add(1);
                self.underrun_frames = self.underrun_frames.saturating_add(underrun);
                if boundary.is_some() {
                    self.last_boundary = boundary;
                }
                RendererOperationOutcome::Applied
            },
            other => other,
        }
    }

    /// Account for frames that a callback lacked.
    pub fn record_underrun(&mut self, underrun: u64) -> (outcome: RendererOperationOutcome)
        ensures
            old(self).closed ==> outcome == RendererOperationOutcome::Closed && *final(self)
                == *old(self),
            !old(self).closed ==> outcome == RendererOperationOutcome::Applied && *final(self) == (
            Accounts {
                underrun_frames: tallied(old(self).underrun_frames, underrun),
                ..*old(self)
            }),
            old(self).well_kept() ==> final(self).well_kept(),
    {
        if self.closed {
            return RendererOperationOutcome::Closed;
        }
        self.underrun_frames = self.underrun_frames.saturating_add(underrun);
        RendererOperationOutcome::Applied
    }

    pub fn clear(&mut self) -> (outcome: RendererOperationOutcome)
        ensures
            old(self).closed ==> outcome == RendererOperationOutcome::Closed && *final(self)
                == *old(self),
            !old(self).closed ==> outcome == RendererOperationOutcome::Applied && *final(self) == (
            Accounts { frames: 0, buffers: 0, ..*old(self) }),
            old(self).well_kept() ==> final(self).well_kept(),
    {
        if self.closed {
            return RendererOperationOutcome::Closed;
        }
        self.frames = 0;
        self.buffers = 0;
        RendererOperationOutcome::Applied
    }

    pub fn close(&mut self) -> (outcome: RendererOperationOutcome)
        ensures
            outcome == if old(self).closed {
                RendererOperationOutcome::Closed
            } else {
                RendererOperationOutcome::Applied
            },
            *final(self) == (Accounts { closed: true, ..*old(self) }),
            old(self).well_kept() ==> final(self).well_kept(),
    {
        if self.closed {
            return RendererOperationOutcome::Closed;
        }
        self.closed = true;
        RendererOperationOutcome::Applied
    }

    /// The first fault closes; a later one, or one after a close, is not recorded.
    pub fn record_fault(&mut self, fault: RendererFault) -> (outcome: RendererOperationOutcome)
        ensures
            old(self).closed ==> outcome == RendererOperationOutcome::Closed && *final(self)
                == *old(self),
            !old(self).closed ==> outcome == RendererOperationOutcome::Applied && *final(self) == (
            Accounts { closed: true, fault: Some(fault), ..*old(self) }),
            old(self).well_kept() ==> final(self).well_kept(),
    {
        if self.closed {
            return RendererOperationOutcome::Closed;
        }
        self.closed = true;
        self.fault = Some(fault);
        RendererOperationOutcome::Applied
    }

    /// End the scope, once. The first winner's record stays; what was queued is
    /// given up.
    pub fn finalize(&mut self, winner: TerminalWinner, ack: TerminalAck) -> (result: Result<
        Finalization,
        Finalization,
    >)
        ensures
            match old(self).finalization {
                Some(earlier) => result == Err::<Finalization, Finalization>(earlier)
                    && *final(self) == *old(self),
                None => result == Ok::<Finalization, Finalization>(
                    Finalization { winner, ack },
                ) && *final(self) == (Accounts {
                    closed: true,
                    frames: 0,
                    buffers: 0,
                    finalization: Some(Finalization { winner, ack }),
                    ..*old(self)
                }),
            },
            old(self).well_kept() ==> final(self).well_kept(),
    {
        match self.finalization {
            Some(earlier) => Err(earlier),
            None => {
                let finalization = Finalization { winner, ack };
                self.closed = true;
                self.frames = 0;
                self.buffers = 0;
                self.finalization = Some(finalization);
                Ok(finalization)
            },
        }
    }

    pub open spec fn end_state(self) -> TerminalState {
        match self.finalization {
            Some(finalization) => TerminalState::Finalized { finalization },
            None => TerminalState::Running,
        }
    }

    /// Whether the scope is running, or how it was ended.
    pub fn terminal_state(&self) -> (state: TerminalState)
        ensures
            state == self.end_state(),
    {
        match self.finalization {
            Some(finalization) => TerminalState::Finalized { finalization },
            None => TerminalState::Running,
        }
    }

    pub open spec fn ended_as(self) -> Option<RendererTerminal> {
        match self.finalization {
            None => None,
            Some(finalization) => Some(
                match self.fault {
                    Some(fault) => RendererTerminal::Faulted(fault),
                    None => match finalization.winner {
                        TerminalWinner::Teardown => RendererTerminal::Finished,
                        TerminalWinner::PreStartAbort => RendererTerminal::Aborted,
                    },
                },
            ),
        }
    }

    /// How the scope ended, if it has.
    pub fn terminal(&self) -> (terminal: Option<RendererTerminal>)
        ensures
            terminal == self.ended_as(),
    {
        match self.finalization {
            None => None,
            Some(finalization) => match self.fault {
                Some(fault) => Some(RendererTerminal::Faulted(fault)),
                None => match finalization.winner {
                    TerminalWinner::Teardown => Some(RendererTerminal::Finished),
                    TerminalWinner::PreStartAbort => Some(RendererTerminal::Aborted),
                },
            },
        }
    }
}

/// One operation on the accounts of a scope.
pub enum AccountStep {
    Enqueue { frames: usize },
    Consume { frames: usize },
    Callback { frames: usize, underrun: u64, boundary: Option<i64> },
    Underrun { underrun: u64 },
    Clear,
    Close,
    Fault { fault: RendererFault },
    Finalize { winner: TerminalWinner, ack: TerminalAck },
}

pub open spec fn account_steps_to(a: Accounts, step: AccountStep, b: Accounts) -> bool {
    match step {
        AccountStep::Enqueue { frames } => b == if a.refusal(frames) is Some {
            a
        } else {
            a.holding((a.frames + frames) as usize, (a.buffers + 1) as usize)
        },
        AccountStep::Consume { frames } => b == if a.closed {
            a
        } else {
            a.drained(frames)
        },
        AccountStep::Callback { frames, underrun, boundary } => b == if a.closed {
            a
        } else {
            Accounts {
                callbacks: tallied(a.callbacks, 1),
                underrun_frames: tallied(a.underrun_frames, underrun),
                last_boundary: if boundary is Some {
                    boundary
                } else {
                    a.last_boundary
                },
                ..a.drained(frames)
            }
        },
        AccountStep::Underrun { underrun } => b == if a.closed {
            a
        } else {
            Accounts { underrun_frames: tallied(a.underrun_frames, underrun), ..a }
        },
        AccountStep::Clear => b == if a.closed {
            a
        } else {
            Accounts { frames: 0, buffers: 0, ..a }
        },
        AccountStep::Close => b == (Accounts { closed: true, ..a }),
        AccountStep::Fault { fault } => b == if a.closed {
            a
        } else {
            Accounts { closed: true, fault: Some(fault), ..a }
        },
        AccountStep::Finalize { winner, ack } => b == if a.finalization is Some {
            a
        } else {
            Accounts {
                closed: true,
                frames: 0,
                buffers: 0,
                finalization: Some(Finalization { winner, ack }),
                ..a
            }
        },
    }
}

/// The quota holds after every operation: what is queued stays within the limits,
/// and high water records the most there ever was.
pub proof fn the_quota_always_holds(a: Accounts, step: AccountStep, b: Accounts)
    requires
        account_steps_to(a, step, b),
        a.well_kept(),
        a.frames <= a.limits.frames(),
        a.buffers <= a.limits.buffers(),
    ensures
        b.well_kept(),
        b.limits == a.limits,
        b.frames <= b.limits.frames(),
        b.buffers <= b.limits.buffers(),
        b.high_frames >= a.high_frames,
        b.high_buffers >= a.high_buffers,
{
}

/// A scope closes for good: after a close, a fault or an end nothing more is
/// accepted or recorded, the first fault stays the fault, and the first end stays
/// the end.
pub proof fn a_closed_scope_stays_closed(a: Accounts, step: AccountStep, b: Accounts)
    requires
        account_steps_to(a, step, b),
        a.well_kept(),
        a.closed,
    ensures
        b.closed,
        b.fault == a.fault,
        b.callbacks == a.callbacks,
        b.frames <= a.frames,
        b.buffers <= a.buffers,
        a.finalization is Some ==> b == a,
        forall|frames: usize| #[trigger] b.refusal(frames) == Some(EnqueueOutcome::Closed),
{
}

/// What can be queued, and what is.
#[derive(Clone, Copy, Debug, PartialEq, Eq, Structural)]
pub struct RendererCapacity {
    accounts: Accounts,
}

impl RendererCapacity {
    pub closed spec fn of(self) -> Accounts {
        self.accounts
    }

    pub fn hard_frames(&self) -> (frames: usize)
        ensures
            frames == self.of().limits.frames(),
    {
        self.accounts.limits.hard_frames()
    }

    pub fn hard_buffers(&self) -> (buffers: usize)
        ensures
            buffers == self.of().limits.buffers(),
    {
        self.accounts.limits.hard_buffers()
    }

    pub fn current_frames(&self) -> (frames: usize)
        ensures
            frames == self.of().frames,
    {
        self.accounts.frames
    }

    pub fn current_buffers(&self) -> (buffers: usize)
        ensures
            buffers == self.of().buffers,
    {
        self.accounts.buffers
    }

    pub fn high_water_frames(&self) -> (frames: usize)
        ensures
            frames == self.of().high_frames,
    {
        self.accounts.high_frames
    }

    pub fn high_water_buffers(&self) -> (buffers: usize)
        ensures
            buffers == self.of().high_buffers,
    {
        self.accounts.high_buffers
    }
}

/// How a renderer is doing.
#[derive(Clone, Copy, Debug, PartialEq, Eq, Structural)]
pub struct RendererHealth {
    scope: PlayerScope,
    accounts: Accounts,
    consumed: u64,
}

impl RendererHealth {
    pub closed spec fn of(self) -> Accounts {
        self.accounts
    }

    pub closed spec fn in_scope(self) -> PlayerScope {
        self.scope
    }

    pub closed spec fn played(self) -> u64 {
        self.consumed
    }

    pub fn scope(&self) -> (scope: PlayerScope)
        ensures
            scope == self.in_scope(),
    {
        self.scope
    }

    pub fn limits(&self) -> (limits: RendererQueueLimits)
        ensures
            limits == self.of().limits,
    {
        self.accounts.limits
    }

    pub fn queued_frames(&self) -> (frames: usize)
        ensures
            frames == self.of().frames,
    {
        self.accounts.frames
    }

    pub fn queued_buffers(&self) -> (buffers: usize)
        ensures
            buffers == self.of().buffers,
    {
        self.accounts.buffers
    }

    pub fn consumed_frames(&self) -> (frames: u64)
        ensures
            frames == self.played(),
    {
        self.consumed
    }

    pub fn callback_count(&self) -> (count: u64)
        ensures
            count == self.of().callbacks,
    {
        self.accounts.callbacks
    }

    pub fn underrun_frames(&self) -> (frames: u64)
        ensures
            frames == self.of().underrun_frames,
    {
        self.accounts.underrun_frames
    }

    pub fn last_presentation_boundary_zone_us(&self) -> (boundary: Option<i64>)
        ensures
            boundary == self.of().last_boundary,
    {
        self.accounts.last_boundary
    }

    pub fn fault(&self) -> (fault: Option<RendererFault>)
        ensures
            fault == self.of().fault,
    {
        self.accounts.fault
    }

    pub fn terminal(&self) -> (terminal: Option<RendererTerminal>)
        ensures
            terminal == self.of().ended_as(),
    {
        self.accounts.terminal()
    }
}

/// The scope that was minted last, with its accounts.
#[derive(Clone, Copy, Debug, PartialEq, Eq, Structural)]
pub struct Minted {
    pub id: u64,
    pub accounts: Accounts,
}

impl Minted {
    /// The answer to an operation on a scope: whether it is the one minted last, and
    /// open.
    pub open spec fn answer(self, scope: PlayerScope) -> RendererOperationOutcome {
        if self.id != scope.id {
            RendererOperationOutcome::StaleScope
        } else if self.accounts.closed {
            RendererOperationOutcome::Closed
        } else {
            RendererOperationOutcome::Applied
        }
    }

    /// An operation takes its step on the accounts of its scope, and none on those of
    /// another.
    pub open spec fn steps_to(self, scope: PlayerScope, step: AccountStep, after: Minted) -> bool {
        &&& after.id == self.id
        &&& self.id == scope.id ==> account_steps_to(self.accounts, step, after.accounts)
        &&& self.id != scope.id ==> after.accounts == self.accounts
    }

    /// The answer to a buffer.
    pub open spec fn enqueue_answer(self, scope: PlayerScope, frames: usize) -> EnqueueOutcome {
        if self.id != scope.id {
            EnqueueOutcome::StaleScope
        } else {
            match self.accounts.refusal(frames) {
                Some(refused) => refused,
                None => EnqueueOutcome::Accepted {
                    queued_frames: (self.accounts.frames + frames) as usize,
                    queued_buffers: (self.accounts.buffers + 1) as usize,
                },
            }
        }
    }

    /// Account for a buffer.
    pub fn enqueue(&mut self, scope: PlayerScope, frames: usize) -> (outcome: EnqueueOutcome)
        ensures
            outcome == old(self).enqueue_answer(scope, frames),
            old(self).steps_to(scope, AccountStep::Enqueue { frames }, *final(self)),
            old(self).accounts.well_kept() ==> final(self).accounts.well_kept(),
    {
        if self.id != scope.id {
            return EnqueueOutcome::StaleScope;
        }
        self.accounts.enqueue(frames)
    }

    /// Take over what an actual queue holds.
    pub fn hold(&mut self, scope: PlayerScope, frames: usize, buffers: usize) -> (outcome:
        RendererOperationOutcome)
        ensures
            outcome == old(self).answer(scope),
            *final(self) == if outcome == RendererOperationOutcome::Applied {
                Minted { accounts: old(self).accounts.holding(frames, buffers), ..*old(self) }
            } else {
                *old(self)
            },
            old(self).accounts.well_kept() ==> final(self).accounts.well_kept(),
    {
        if self.id != scope.id {
            return RendererOperationOutcome::StaleScope;
        }
        if self.accounts.closed {
            return RendererOperationOutcome::Closed;
        }
        self.accounts.hold(frames, buffers);
        RendererOperationOutcome::Applied
    }

    /// Account for frames that were played.
    pub fn consume(&mut self, scope: PlayerScope, frames: usize) -> (outcome:
        RendererOperationOutcome)
        ensures
            outcome == old(self).answer(scope),
            old(self).steps_to(scope, AccountStep::Consume { frames }, *final(self)),
            old(self).accounts.well_kept() ==> final(self).accounts.well_kept(),
    {
        if self.id != scope.id {
            return RendererOperationOutcome::StaleScope;
        }
        self.accounts.consume(frames)
    }

    /// Account for one callback.
    pub fn record_callback(
        &mut self,
        scope: PlayerScope,
        frames: usize,
        underrun: u64,
        boundary: Option<i64>,
    ) -> (outcome: RendererOperationOutcome)
        ensures
            outcome == old(self).answer(scope),
            old(self).steps_to(
                scope,
                AccountStep::Callback { frames, underrun, boundary },
                *final(self),
            ),
            old(self).accounts.well_kept() ==> final(self).accounts.well_kept(),
    {
        if self.id != scope.id {
            return RendererOperationOutcome::StaleScope;
        }
        self.accounts.record_callback(frames, underrun, boundary)
    }

    /// Account for frames that a callback lacked.
    pub fn record_underrun(&mut self, scope: PlayerScope, underrun: u64) -> (outcome:
        RendererOperationOutcome)
        ensures
            outcome == old(self).answer(scope),
            old(self).steps_to(scope, AccountStep::Underrun { underrun }, *final(self)),
            old(self).accounts.well_kept() ==> final(self).accounts.well_kept(),
    {
        if self.id != scope.id {
            return RendererOperationOutcome::StaleScope;
        }
        self.accounts.record_underrun(underrun)
    }

    /// Give up everything queued.
    pub fn clear(&mut self, scope: PlayerScope) -> (outcome: RendererOperationOutcome)
        ensures
            outcome == old(self).answer(scope),
            old(self).steps_to(scope, AccountStep::Clear, *final(self)),
            old(self).accounts.well_kept() ==> final(self).accounts.well_kept(),
    {
        if self.id != scope.id {
            return RendererOperationOutcome::StaleScope;
        }
        self.accounts.clear()
    }

    /// Stop accepting.
    pub fn close(&mut self, scope: PlayerScope) -> (outcome: RendererOperationOutcome)
        ensures
            outcome == old(self).answer(scope),
            old(self).steps_to(scope, AccountStep::Close, *final(self)),
            old(self).accounts.well_kept() ==> final(self).accounts.well_kept(),
    {
        if self.id != scope.id {
            return RendererOperationOutcome::StaleScope;
        }
        self.accounts.close()
    }

    /// Record a fault, and stop accepting.
    pub fn record_fault(&mut self, scope: PlayerScope, fault: RendererFault) -> (outcome:
        RendererOperationOutcome)
        ensures
            outcome == old(self).answer(scope),
            old(self).steps_to(scope, AccountStep::Fault { fault }, *final(self)),
            old(self).accounts.well_kept() ==> final(self).accounts.well_kept(),
    {
        if self.id != scope.id {
            return RendererOperationOutcome::StaleScope;
        }
        self.accounts.record_fault(fault)
    }

    /// End a scope, once.
    pub fn finalize(&mut self, scope: PlayerScope, winner: TerminalWinner, ack: TerminalAck) -> (
    outcome: TerminalOutcome)
        ensures
            outcome == if old(self).id != scope.id {
                TerminalOutcome::StaleScope
            } else {
                match old(self).accounts.finalization {
                    Some(earlier) => TerminalOutcome::AlreadyFinalized(earlier),
                    None => TerminalOutcome::Won(Finalization { winner, ack }),
                }
            },
            old(self).steps_to(scope, AccountStep::Finalize { winner, ack }, *final(self)),
            old(self).accounts.well_kept() ==> final(self).accounts.well_kept(),
    {
        if self.id != scope.id {
            return TerminalOutcome::StaleScope;
        }
        match self.accounts.finalize(winner, ack) {
            Ok(finalization) => TerminalOutcome::Won(finalization),
            Err(earlier) => TerminalOutcome::AlreadyFinalized(earlier),
        }
    }

    pub open spec fn next(self) -> Option<PlayerScope> {
        if (self.id > 0 && self.accounts.finalization is None) || self.id == u64::MAX {
            None
        } else {
            Some(PlayerScope { id: (self.id + 1) as u64 })
        }
    }

    /// Begin the next scope, unless the last one has not ended, or none is left.
    pub fn mint(&mut self) -> (scope: Option<PlayerScope>)
        ensures
            scope == old(self).next(),
            *final(self) == match scope {
                Some(minted) => Minted {
                    id: minted.id,
                    accounts: Accounts::opened(old(self).accounts.limits),
                },
                None => *old(self),
            },
            old(self).accounts.well_kept() ==> final(self).accounts.well_kept(),
    {
        if (self.id > 0 && self.accounts.finalization.is_none()) || self.id == u64::MAX {
            return None;
        }
        self.id = self.id + 1;
        self.accounts = Accounts::new(self.accounts.limits);
        Some(PlayerScope { id: self.id })
    }
}

/// What an owner guards: the scope that was minted last, its accounts, its gate
/// and its counter.
pub struct OwnerState {
    pub book: Minted,
    pub gate: Arc<ControlGate>,
    pub consumed: Arc<AtomicU64>,
}

impl OwnerState {
    /// Only the book may be another.
    pub open spec fn keeps(self, before: OwnerState) -> bool {
        &&& self.gate == before.gate
        &&& self.consumed == before.consumed
    }

    /// The control gate and the counter are new, and hold nothing.
    pub open spec fn is_fresh(self) -> bool {
        &&& self.gate.begins_with(0)
        &&& made_u64(*self.consumed, 0)
    }
}

/// What holds of the guarded state whenever nobody has it in hands: the accounts are
/// well kept, and their limits are the ones that the owner was made with.
pub struct OwnerKept {
    limits: RendererQueueLimits,
}

impl RwLockPredicate<OwnerState> for OwnerKept {
    closed spec fn inv(self, state: OwnerState) -> bool {
        &&& state.book.accounts.well_kept()
        &&& state.book.accounts.limits == self.limits
    }
}

/// A shared handle to one renderer's ownership. `open` is the scope that is open, or
/// 0: a callback reads it without waiting for whoever has the state in hands.
pub struct RendererOwner {
    shared: Arc<RwLock<OwnerState, OwnerKept>>,
    open: Arc<AtomicU64>,
}

impl Clone for RendererOwner {
    fn clone(&self) -> (owner: RendererOwner)
        ensures
            owner == *self,
    {
        RendererOwner { shared: Arc::clone(&self.shared), open: Arc::clone(&self.open) }
    }
}

/// An accepted buffer whose accounts are not written yet. The owner waits for it.
pub(crate) struct EnqueueTicket<'a> {
    state: OwnerState,
    handle: WriteHandle<'a, OwnerState, OwnerKept>,
}

impl<'a> EnqueueTicket<'a> {
    pub(crate) closed spec fn sound(self) -> bool {
        self.handle.rwlock().inv(self.state)
    }

    pub(crate) closed spec fn before(self) -> Accounts {
        self.state.book.accounts
    }

    /// The state that an owner had in hands.
    pub(crate) closed spec fn held(self) -> OwnerState {
        self.state
    }

    /// The state was taken in hands from this owner.
    pub(crate) closed spec fn is_from(self, owner: RendererOwner) -> bool {
        owner.is_taken(self.state, self.handle)
    }

    /// The state was given back as this.
    pub(crate) closed spec fn gives_back(self, after: OwnerState) -> bool {
        given_back(self.handle, after)
    }

    /// A buffer was put in under this ticket.
    pub(crate) open spec fn is_committed(
        self,
        queued_frames: usize,
        queued_buffers: usize,
    ) -> bool {
        exists|after: OwnerState| #[trigger]
            self.gives_back(after) && after.keeps(self.held()) && after.book == (Minted {
                accounts: self.before().holding(queued_frames, queued_buffers),
                ..self.held().book
            })
    }

    /// A ticket that was taken and released is one turn of the owner.
    pub(crate) proof fn lemma_released(
        self,
        owner: RendererOwner,
        scope: PlayerScope,
        frames: usize,
    )
        requires
            self.is_from(owner),
            self.held().book.id == scope.id,
            self.held().book.accounts == self.before(),
            self.before().refusal(frames) is None,
            self.gives_back(self.held()),
        ensures
            owner.admits(scope, frames),
    {
        assert(owner.is_taken(self.held(), self.handle) && given_back(self.handle, self.held()));
        assert(owner.turns(self.held(), self.held()));
    }

    /// A ticket that was taken and committed is one turn of the owner.
    pub(crate) proof fn lemma_committed(
        self,
        owner: RendererOwner,
        scope: PlayerScope,
        frames: usize,
        queued_frames: usize,
        queued_buffers: usize,
    )
        requires
            self.is_from(owner),
            self.held().book.id == scope.id,
            self.held().book.accounts == self.before(),
            self.before().refusal(frames) is None,
            self.is_committed(queued_frames, queued_buffers),
        ensures
            owner.takes_in(scope, frames, queued_frames, queued_buffers),
    {
        let after = choose|after: OwnerState| #[trigger]
            self.gives_back(after) && after.keeps(self.held()) && after.book == (Minted {
                accounts: self.before().holding(queued_frames, queued_buffers),
                ..self.held().book
            });
        assert(owner.is_taken(self.held(), self.handle) && given_back(self.handle, after));
        assert(owner.turns(self.held(), after));
    }

    /// Put no buffer in after all.
    pub(crate) fn release(self)
        requires
            self.sound(),
        ensures
            self.gives_back(self.held()),
    {
        let EnqueueTicket { state, handle } = self;
        handle.release_write(state);
    }

    /// Account for what is queued once the buffer is in.
    pub(crate) fn commit(self, queued_frames: usize, queued_buffers: usize) -> (outcome:
        EnqueueOutcome)
        requires
            self.sound(),
        ensures
            outcome == (EnqueueOutcome::Accepted { queued_frames, queued_buffers }),
            self.is_committed(queued_frames, queued_buffers),
    {
        let ghost ticket = self;
        let EnqueueTicket { state, handle } = self;
        let mut state = state;
        state.book.accounts.hold(queued_frames, queued_buffers);
        handle.release_write(state);
        assert(ticket.gives_back(state));
        EnqueueOutcome::Accepted { queued_frames, queued_buffers }
    }
}

/// A scope was ended, by an acknowledgment that claims nothing, or was before.
pub open spec fn ended(
    before: Minted,
    after: Minted,
    scope: PlayerScope,
    winner: TerminalWinner,
    outcome: TerminalOutcome,
) -> bool {
    exists|ack: TerminalAck|
        {
            &&& ack.says() == (false, false)
            &&& #[trigger] before.steps_to(scope, AccountStep::Finalize { winner, ack }, after)
            &&& outcome == if before.id != scope.id {
                TerminalOutcome::StaleScope
            } else {
                match before.accounts.finalization {
                    Some(earlier) => TerminalOutcome::AlreadyFinalized(earlier),
                    None => TerminalOutcome::Won(Finalization { winner, ack }),
                }
            }
        }
}

/// The state was given back through a handle.
closed spec fn given_back(
    handle: WriteHandle<'_, OwnerState, OwnerKept>,
    after: OwnerState,
) -> bool {
    call_ensures(WriteHandle::<'_, OwnerState, OwnerKept>::release_write, (handle, after), ())
}

/// Whether an answer to a buffer is the one that some accounts give under these
/// limits.
pub open spec fn enqueue_answers(
    limits: RendererQueueLimits,
    scope: PlayerScope,
    frames: usize,
    outcome: EnqueueOutcome,
) -> bool {
    exists|found: Minted|
        found.accounts.well_kept() && found.accounts.limits == limits && outcome == #[trigger]
            found.enqueue_answer(scope, frames)
}

fn add_consumed(counter: &AtomicU64, frames: u64)
    ensures
        added(*counter, frames),
{
    let before: u64 = counter.fetch_add(frames, Ordering::AcqRel);
    assert(added_to(*counter, frames, before));
}

fn widened(frames: usize) -> (wide: u64)
    ensures
        wide == frames,
{
    frames as u64
}

impl RendererOwner {
    /// The limits that every scope of this owner has.
    pub closed spec fn limits(&self) -> RendererQueueLimits {
        self.shared.pred().limits
    }

    /// The owner was made with this state, and with this scope open.
    pub closed spec fn begins_with(&self, state: OwnerState, id: u64) -> bool {
        &&& call_ensures(
            RwLock::<OwnerState, OwnerKept>::new,
            (state, Ghost(self.shared.pred())),
            *self.shared,
        )
        &&& made_u64(*self.open, id)
    }

    /// The state was taken in hands.
    closed spec fn is_taken(
        &self,
        before: OwnerState,
        handle: WriteHandle<'_, OwnerState, OwnerKept>,
    ) -> bool {
        call_ensures(
            RwLock::<OwnerState, OwnerKept>::acquire_write,
            (&*self.shared,),
            (before, handle),
        )
    }

    /// The state was taken in hands as one, and given back as another. Nobody else had it
    /// meanwhile.
    pub closed spec fn turns(&self, before: OwnerState, after: OwnerState) -> bool {
        exists|handle: WriteHandle<'_, OwnerState, OwnerKept>| #[trigger]
            self.is_taken(before, handle) && given_back(handle, after)
    }

    /// The scope that is open was read, and was this.
    pub closed spec fn reads_open(&self, id: u64) -> bool {
        got_u64(*self.open, id)
    }

    /// This scope was made the open one. 0 is none.
    pub closed spec fn opens(&self, id: u64) -> bool {
        put_u64(*self.open, id)
    }

    /// Whether a scope needs a closer look was read.
    pub open spec fn is_checked(&self, scope: PlayerScope, needs: bool) -> bool {
        exists|id: u64| #[trigger] self.reads_open(id) && needs == (id != scope.id)
    }

    /// A buffer was answered.
    pub open spec fn answers_enqueue(
        &self,
        scope: PlayerScope,
        frames: usize,
        outcome: EnqueueOutcome,
    ) -> bool {
        exists|before: OwnerState, after: OwnerState| #[trigger]
            self.turns(before, after) && after.keeps(before) && outcome
                == before.book.enqueue_answer(scope, frames) && before.book.steps_to(
                scope,
                AccountStep::Enqueue { frames },
                after.book,
            )
    }

    /// What a queue holds was taken over, and the answer.
    pub open spec fn takes_over(
        &self,
        scope: PlayerScope,
        frames: usize,
        buffers: usize,
        outcome: RendererOperationOutcome,
    ) -> bool {
        exists|before: OwnerState, after: OwnerState| #[trigger]
            self.turns(before, after) && after.keeps(before) && outcome == before.book.answer(scope)
                && after.book == if outcome == RendererOperationOutcome::Applied {
                Minted { accounts: before.book.accounts.holding(frames, buffers), ..before.book }
            } else {
                before.book
            }
    }

    /// What a queue holds was told, and whether it was taken over.
    pub open spec fn is_told(
        &self,
        scope: PlayerScope,
        frames: usize,
        buffers: usize,
        told: bool,
    ) -> bool {
        exists|outcome: RendererOperationOutcome| #[trigger]
            self.takes_over(scope, frames, buffers, outcome) && told == (outcome
                == RendererOperationOutcome::Applied)
    }

    /// A buffer would be admitted, as the owner found.
    pub open spec fn admits(&self, scope: PlayerScope, frames: usize) -> bool {
        exists|before: OwnerState, after: OwnerState| #[trigger]
            self.turns(before, after) && before.book.id == scope.id
                && before.book.accounts.refusal(frames) is None
    }

    /// A buffer was admitted, and what is queued with it was taken over in the same turn.
    pub open spec fn takes_in(
        &self,
        scope: PlayerScope,
        frames: usize,
        queued_frames: usize,
        queued_buffers: usize,
    ) -> bool {
        exists|before: OwnerState, after: OwnerState| #[trigger]
            self.turns(before, after) && after.keeps(before) && before.book.id == scope.id
                && before.book.accounts.refusal(frames) is None && after.book == (Minted {
                accounts: before.book.accounts.holding(queued_frames, queued_buffers),
                ..before.book
            })
    }

    /// The source of a scope was to be given up, and what came of it.
    pub open spec fn clears(
        &self,
        scope: PlayerScope,
        result: Result<RendererOperationOutcome, ()>,
    ) -> bool {
        exists|before: OwnerState, after: OwnerState| #[trigger]
            self.turns(before, after) && after.keeps(before) && match result {
                Ok(outcome) => {
                    &&& outcome == before.book.answer(scope)
                    &&& before.book.steps_to(scope, AccountStep::Clear, after.book)
                    &&& outcome == RendererOperationOutcome::Applied ==> before.gate.is_cleared(
                        true,
                    )
                },
                Err(_) => {
                    &&& after == before
                    &&& before.book.answer(scope) == RendererOperationOutcome::Applied
                    &&& before.gate.is_cleared(false)
                },
            }
    }

    /// The start phase of a scope was asked for.
    pub open spec fn shows_phase(
        &self,
        scope: PlayerScope,
        phase: Result<StartState, RendererOperationOutcome>,
    ) -> bool {
        exists|found: OwnerState| #[trigger]
            self.turns(found, found) && match phase {
                Ok(p) => found.book.id == scope.id && found.gate.is_in_phase(p),
                Err(_) => found.book.id != scope.id,
            }
    }

    /// A scope was to be ended, and the answer.
    pub open spec fn tears_down(&self, scope: PlayerScope, outcome: TerminalOutcome) -> bool {
        exists|before: OwnerState, after: OwnerState| #[trigger]
            self.turns(before, after) && after.keeps(before) && ended(
                before.book,
                after.book,
                scope,
                TerminalWinner::Teardown,
                outcome,
            ) && (outcome != TerminalOutcome::StaleScope ==> self.shuts(before))
    }

    /// Frames that an actual device has played were accounted for, with what is queued after
    /// that, and the answer.
    pub open spec fn progresses(
        &self,
        scope: PlayerScope,
        frames: usize,
        boundary: Option<i64>,
        queued_frames: usize,
        queued_buffers: usize,
        outcome: RendererOperationOutcome,
    ) -> bool {
        exists|recorded: RendererOperationOutcome| #[trigger]
            self.accounts_for(
                scope,
                AccountStep::Callback { frames, underrun: 0, boundary },
                Some(frames),
                recorded,
            ) && if recorded == RendererOperationOutcome::Applied {
                self.takes_over(scope, queued_frames, queued_buffers, outcome)
            } else {
                outcome == recorded
            }
    }

    /// An operation on the accounts was made, and the answer. Frames that were played are
    /// counted.
    pub open spec fn accounts_for(
        &self,
        scope: PlayerScope,
        step: AccountStep,
        played: Option<usize>,
        outcome: RendererOperationOutcome,
    ) -> bool {
        exists|before: OwnerState, after: OwnerState| #[trigger]
            self.turns(before, after) && after.keeps(before) && outcome == before.book.answer(scope)
                && before.book.steps_to(scope, step, after.book) && (played is Some && outcome
                == RendererOperationOutcome::Applied ==> added(
                *before.consumed,
                played->0 as u64,
            ))
    }

    /// The control gate of a state was closed, and with it the open scope.
    pub open spec fn shuts(&self, state: OwnerState) -> bool {
        &&& exists|found: u64| #[trigger]
            state.gate.steps(closed_always, Ok::<u64, u64>(found))
        &&& self.opens(0)
    }

    /// A start that was not won was cancelled and its scope ended, or not.
    pub open spec fn aborts(
        &self,
        before: OwnerState,
        after: OwnerState,
        scope: PlayerScope,
        outcome: PreStartAbortOutcome,
    ) -> bool {
        if before.book.id != scope.id {
            after == before && outcome == PreStartAbortOutcome::StaleScope
        } else {
            exists|moved: Result<u64, u64>| #[trigger]
                before.gate.steps(cancelled_control, moved) && match moved {
                    Err(_) => {
                        &&& after == before
                        &&& outcome matches PreStartAbortOutcome::BoundaryWon { start_at_zone_us }
                            && before.gate.reads_boundary(start_at_zone_us)
                    },
                    Ok(_) => {
                        &&& self.opens(0)
                        &&& ended(
                            before.book,
                            after.book,
                            scope,
                            TerminalWinner::PreStartAbort,
                            match outcome {
                                PreStartAbortOutcome::Won(finalization) => TerminalOutcome::Won(
                                    finalization,
                                ),
                                PreStartAbortOutcome::AlreadyFinalized(finalization) =>
                                    TerminalOutcome::AlreadyFinalized(finalization),
                                _ => TerminalOutcome::StaleScope,
                            },
                        )
                    },
                }
        }
    }

    /// An operation that closes was made, and the answer.
    pub open spec fn closes(
        &self,
        scope: PlayerScope,
        step: AccountStep,
        outcome: RendererOperationOutcome,
    ) -> bool {
        exists|before: OwnerState, after: OwnerState| #[trigger]
            self.turns(before, after) && after.keeps(before) && outcome == before.book.answer(scope)
                && before.book.steps_to(scope, step, after.book) && (outcome
                != RendererOperationOutcome::StaleScope ==> self.shuts(before))
    }

    /// An owner that has minted no scope.
    pub fn new(limits: RendererQueueLimits) -> (owner: RendererOwner)
        ensures
            owner.limits() == limits,
            exists|state: OwnerState| #[trigger]
                owner.begins_with(state, 0) && state.is_fresh() && state.book.id == 0
                    && account_steps_to(
                    Accounts::opened(limits),
                    AccountStep::Close,
                    state.book.accounts,
                ),
    {
        let mut accounts = Accounts::new(limits);
        let _ = accounts.close();
        let state = OwnerState {
            book: Minted { id: 0, accounts },
            gate: Arc::new(ControlGate::default()),
            consumed: Arc::new(AtomicU64::new(0)),
        };
        let owner = RendererOwner {
            shared: Arc::new(RwLock::new(state, Ghost(OwnerKept { limits }))),
            open: Arc::new(AtomicU64::new(0)),
        };
        assert(owner.begins_with(state, 0));
        owner
    }

    /// An owner that has minted its first scope.
    pub fn opened(limits: RendererQueueLimits) -> (opened: (RendererOwner, PlayerScope))
        ensures
            opened.0.limits() == limits,
            opened.1.id == 1,
            exists|state: OwnerState| #[trigger]
                opened.0.begins_with(state, 1) && state.is_fresh() && state.book == (Minted {
                    id: 1,
                    accounts: Accounts::opened(limits),
                }),
    {
        let state = OwnerState {
            book: Minted { id: 1, accounts: Accounts::new(limits) },
            gate: Arc::new(ControlGate::default()),
            consumed: Arc::new(AtomicU64::new(0)),
        };
        let owner = RendererOwner {
            shared: Arc::new(RwLock::new(state, Ghost(OwnerKept { limits }))),
            open: Arc::new(AtomicU64::new(1)),
        };
        let opened = (owner, PlayerScope { id: 1 });
        assert(opened.0.begins_with(state, 1) && state.is_fresh());
        opened
    }

    /// Begin a scope, unless one is running that has not ended.
    pub fn mint_scope(&self) -> (scope: Option<PlayerScope>)
        ensures
            scope matches Some(s) ==> s.id > 0,
            exists|before: OwnerState, after: OwnerState| #[trigger]
                self.turns(before, after) && scope == before.book.next() && match scope {
                    Some(minted) => {
                        &&& after.book == (Minted {
                            id: minted.id,
                            accounts: Accounts::opened(before.book.accounts.limits),
                        })
                        &&& after.is_fresh()
                        &&& self.opens(minted.id)
                    },
                    None => after == before,
                },
    {
        let (state, handle) = self.shared.acquire_write();
        let ghost before = state;
        let mut state = state;
        let minted = state.book.mint();
        match minted {
            Some(scope) => {
                state.gate = Arc::new(ControlGate::default());
                state.consumed = Arc::new(AtomicU64::new(0));
                self.open.store(scope.id, Ordering::Release);
            },
            None => {},
        }
        handle.release_write(state);
        assert(self.is_taken(before, handle) && given_back(handle, state));
        assert(self.turns(before, state));
        minted
    }

    /// A reading of the accounts of a scope, with the frames consumed.
    pub fn health(&self, scope: PlayerScope) -> (health: Result<
        RendererHealth,
        RendererOperationOutcome,
    >)
        ensures
            match health {
                Ok(h) => h.in_scope() == scope && h.of().well_kept() && h.of().limits
                    == self.limits(),
                Err(error) => error == RendererOperationOutcome::StaleScope,
            },
            exists|found: OwnerState| #[trigger]
                self.turns(found, found) && match health {
                    Ok(h) => found.book.id == scope.id && h.of() == found.book.accounts && got_u64(
                        *found.consumed,
                        h.played(),
                    ),
                    Err(_) => found.book.id != scope.id,
                },
    {
        let (state, handle) = self.shared.acquire_write();
        let result = if state.book.id != scope.id {
            Err(RendererOperationOutcome::StaleScope)
        } else {
            let consumed: u64 = state.consumed.load(Ordering::Acquire);
            Ok(RendererHealth { scope, accounts: state.book.accounts, consumed })
        };
        handle.release_write(state);
        assert(self.is_taken(state, handle) && given_back(handle, state));
        assert(self.turns(state, state));
        result
    }

    pub fn capacity(&self, scope: PlayerScope) -> (capacity: Result<
        RendererCapacity,
        RendererOperationOutcome,
    >)
        ensures
            match capacity {
                Ok(c) => c.of().well_kept() && c.of().limits == self.limits(),
                Err(error) => error == RendererOperationOutcome::StaleScope,
            },
            exists|found: OwnerState| #[trigger]
                self.turns(found, found) && match capacity {
                    Ok(c) => found.book.id == scope.id && c.of() == found.book.accounts,
                    Err(_) => found.book.id != scope.id,
                },
    {
        match self.health(scope) {
            Ok(health) => Ok(RendererCapacity { accounts: health.accounts }),
            Err(error) => Err(error),
        }
    }

    pub fn consumed_frames(&self, scope: PlayerScope) -> (frames: Result<
        u64,
        RendererOperationOutcome,
    >)
        ensures
            frames matches Err(error) ==> error == RendererOperationOutcome::StaleScope,
            exists|found: OwnerState| #[trigger]
                self.turns(found, found) && match frames {
                    Ok(count) => found.book.id == scope.id && got_u64(*found.consumed, count),
                    Err(_) => found.book.id != scope.id,
                },
    {
        match self.health(scope) {
            Ok(health) => Ok(health.consumed),
            Err(error) => Err(error),
        }
    }

    /// The control gate of a scope.
    pub fn control_gate(&self, scope: PlayerScope) -> (gate: Result<
        Arc<ControlGate>,
        RendererOperationOutcome,
    >)
        ensures
            gate matches Err(error) ==> error == RendererOperationOutcome::StaleScope,
            exists|found: OwnerState| #[trigger]
                self.turns(found, found) && match gate {
                    Ok(g) => found.book.id == scope.id && g == found.gate,
                    Err(_) => found.book.id != scope.id,
                },
    {
        let (state, handle) = self.shared.acquire_write();
        let result = if state.book.id != scope.id {
            Err(RendererOperationOutcome::StaleScope)
        } else {
            Ok(Arc::clone(&state.gate))
        };
        handle.release_write(state);
        assert(self.is_taken(state, handle) && given_back(handle, state));
        assert(self.turns(state, state));
        result
    }

    /// The counter of frames consumed in a scope.
    pub fn consumption_counter(&self, scope: PlayerScope) -> (counter: Result<
        Arc<AtomicU64>,
        RendererOperationOutcome,
    >)
        ensures
            counter matches Err(error) ==> error == RendererOperationOutcome::StaleScope,
            exists|found: OwnerState| #[trigger]
                self.turns(found, found) && match counter {
                    Ok(c) => found.book.id == scope.id && c == found.consumed,
                    Err(_) => found.book.id != scope.id,
                },
    {
        let (state, handle) = self.shared.acquire_write();
        let result = if state.book.id != scope.id {
            Err(RendererOperationOutcome::StaleScope)
        } else {
            Ok(Arc::clone(&state.consumed))
        };
        handle.release_write(state);
        assert(self.is_taken(state, handle) && given_back(handle, state));
        assert(self.turns(state, state));
        result
    }

    /// Whether a scope may be stale, closed or at its end. This waits for nobody.
    pub fn needs_terminal_check(&self, scope: PlayerScope) -> (needs: bool)
        ensures
            self.is_checked(scope, needs),
    {
        let id: u64 = self.open.load(Ordering::Acquire);
        assert(self.reads_open(id));
        id != scope.id
    }

    /// Account for a buffer.
    pub fn enqueue(&self, scope: PlayerScope, frames: usize) -> (outcome: EnqueueOutcome)
        ensures
            enqueue_answers(self.limits(), scope, frames, outcome),
            self.answers_enqueue(scope, frames, outcome),
    {
        let (state, handle) = self.shared.acquire_write();
        let ghost before = state;
        let mut state = state;
        let outcome = state.book.enqueue(scope, frames);
        assert(outcome == before.book.enqueue_answer(scope, frames));
        handle.release_write(state);
        assert(self.is_taken(before, handle) && given_back(handle, state));
        assert(self.turns(before, state));
        outcome
    }

    /// Begin to account for a buffer that will be put into an actual queue. The
    /// answer is final where it is an `Err`.
    pub(crate) fn begin_enqueue(&self, scope: PlayerScope, frames: usize) -> (result: Result<
        EnqueueTicket<'_>,
        EnqueueOutcome,
    >)
        ensures
            match result {
                Ok(ticket) => ticket.sound() && ticket.before().refusal(frames) is None
                    && ticket.before().limits == self.limits() && ticket.is_from(*self)
                    && ticket.before() == ticket.held().book.accounts && ticket.held().book.id
                    == scope.id,
                Err(outcome) => enqueue_answers(self.limits(), scope, frames, outcome) && !(
                outcome is Accepted) && self.answers_enqueue(scope, frames, outcome),
            },
    {
        let (state, handle) = self.shared.acquire_write();
        let ghost answer = state.book.enqueue_answer(scope, frames);
        if state.book.id != scope.id {
            assert(answer == EnqueueOutcome::StaleScope);
            handle.release_write(state);
            assert(self.is_taken(state, handle) && given_back(handle, state));
            assert(self.turns(state, state));
            return Err(EnqueueOutcome::StaleScope);
        }
        match state.book.accounts.refuse(frames) {
            Some(refused) => {
                assert(answer == refused);
                handle.release_write(state);
                assert(self.is_taken(state, handle) && given_back(handle, state));
                assert(self.turns(state, state));
                Err(refused)
            },
            None => Ok(EnqueueTicket { state, handle }),
        }
    }

    /// Take over what an actual queue holds.
    pub fn reconcile_queue(&self, scope: PlayerScope, frames: usize, buffers: usize) -> (outcome:
        RendererOperationOutcome)
        ensures
            self.takes_over(scope, frames, buffers, outcome),
    {
        let (state, handle) = self.shared.acquire_write();
        let ghost before = state;
        let mut state = state;
        let outcome = state.book.hold(scope, frames, buffers);
        handle.release_write(state);
        assert(self.is_taken(before, handle) && given_back(handle, state));
        assert(self.turns(before, state));
        outcome
    }

    /// Account for frames that were played.
    pub fn consume(&self, scope: PlayerScope, frames: usize) -> (outcome: RendererOperationOutcome)
        ensures
            self.accounts_for(scope, AccountStep::Consume { frames }, Some(frames), outcome),
    {
        let (state, handle) = self.shared.acquire_write();
        let ghost before = state;
        let mut state = state;
        let outcome = state.book.consume(scope, frames);
        if outcome == RendererOperationOutcome::Applied {
            add_consumed(&state.consumed, widened(frames));
        }
        handle.release_write(state);
        assert(self.is_taken(before, handle) && given_back(handle, state));
        assert(self.turns(before, state));
        outcome
    }

    /// Account for one callback.
    pub fn record_callback(
        &self,
        scope: PlayerScope,
        frames: usize,
        underrun: u64,
        boundary: Option<i64>,
    ) -> (outcome: RendererOperationOutcome)
        ensures
            self.accounts_for(
                scope,
                AccountStep::Callback { frames, underrun, boundary },
                Some(frames),
                outcome,
            ),
    {
        let (state, handle) = self.shared.acquire_write();
        let ghost before = state;
        let mut state = state;
        let outcome = state.book.record_callback(scope, frames, underrun, boundary);
        if outcome == RendererOperationOutcome::Applied {
            add_consumed(&state.consumed, widened(frames));
        }
        handle.release_write(state);
        assert(self.is_taken(before, handle) && given_back(handle, state));
        assert(self.turns(before, state));
        outcome
    }

    /// Account for frames that a callback lacked.
    pub fn record_callback_underrun(&self, scope: PlayerScope, underrun: u64) -> (outcome:
        RendererOperationOutcome)
        ensures
            self.accounts_for(scope, AccountStep::Underrun { underrun }, None, outcome),
    {
        let (state, handle) = self.shared.acquire_write();
        let ghost before = state;
        let mut state = state;
        let outcome = state.book.record_underrun(scope, underrun);
        handle.release_write(state);
        assert(self.is_taken(before, handle) && given_back(handle, state));
        assert(self.turns(before, state));
        outcome
    }

    /// Give up everything queued, and a start that is not won. `Err` says that a
    /// callback or another observer is in the way; the caller asks again.
    pub fn clear(&self, scope: PlayerScope) -> (result: Result<RendererOperationOutcome, ()>)
        ensures
            self.clears(scope, result),
    {
        let (state, handle) = self.shared.acquire_write();
        let ghost before = state;
        if state.book.id != scope.id {
            handle.release_write(state);
            assert(self.is_taken(state, handle) && given_back(handle, state));
            assert(self.turns(state, state));
            return Ok(RendererOperationOutcome::StaleScope);
        }
        let mut state = state;
        if state.book.accounts.closed {
            handle.release_write(state);
            assert(self.is_taken(state, handle) && given_back(handle, state));
            assert(self.turns(state, state));
            return Ok(RendererOperationOutcome::Closed);
        }
        let committed: bool = state.gate.try_clear();
        if !committed {
            handle.release_write(state);
            assert(self.is_taken(state, handle) && given_back(handle, state));
            assert(self.turns(state, state));
            return Err(());
        }
        let outcome = state.book.clear(scope);
        handle.release_write(state);
        assert(self.is_taken(before, handle) && given_back(handle, state));
        assert(self.turns(before, state));
        Ok(outcome)
    }

    /// Stop accepting.
    pub fn close(&self, scope: PlayerScope) -> (outcome: RendererOperationOutcome)
        ensures
            self.closes(scope, AccountStep::Close, outcome),
    {
        let (state, handle) = self.shared.acquire_write();
        let ghost before = state;
        let mut state = state;
        let outcome = state.book.close(scope);
        if outcome != RendererOperationOutcome::StaleScope {
            state.gate.close();
            self.open.store(0, Ordering::Release);
        }
        handle.release_write(state);
        assert(self.is_taken(before, handle) && given_back(handle, state));
        assert(self.turns(before, state));
        outcome
    }

    /// Record a fault, and stop accepting.
    pub fn fault(&self, scope: PlayerScope, fault: RendererFault) -> (outcome:
        RendererOperationOutcome)
        ensures
            self.closes(scope, AccountStep::Fault { fault }, outcome),
    {
        let (state, handle) = self.shared.acquire_write();
        let ghost before = state;
        let mut state = state;
        let outcome = state.book.record_fault(scope, fault);
        if outcome != RendererOperationOutcome::StaleScope {
            state.gate.close();
            self.open.store(0, Ordering::Release);
        }
        handle.release_write(state);
        assert(self.is_taken(before, handle) && given_back(handle, state));
        assert(self.turns(before, state));
        outcome
    }

    /// End a scope. Nothing is attached to this owner that would still have to
    /// stop, so the acknowledgment claims nothing.
    pub fn teardown(&self, scope: PlayerScope) -> (outcome: TerminalOutcome)
        ensures
            outcome matches TerminalOutcome::Won(finalization) ==> finalization.winner
                == TerminalWinner::Teardown && finalization.ack.says() == (false, false),
            self.tears_down(scope, outcome),
    {
        let (state, handle) = self.shared.acquire_write();
        let ghost before = state;
        let mut state = state;
        let outcome = state.book.finalize(
            scope,
            TerminalWinner::Teardown,
            TerminalAck { released: false, stopped: false },
        );
        if outcome != TerminalOutcome::StaleScope {
            state.gate.close();
            self.open.store(0, Ordering::Release);
        }
        handle.release_write(state);
        assert(self.is_taken(before, handle) && given_back(handle, state));
        assert(self.turns(before, state));
        outcome
    }

    /// End a scope, unless its start has been won.
    pub fn abort_before_start(&self, scope: PlayerScope) -> (outcome: PreStartAbortOutcome)
        ensures
            outcome matches PreStartAbortOutcome::Won(finalization) ==> finalization.winner
                == TerminalWinner::PreStartAbort && finalization.ack.says() == (false, false),
            exists|before: OwnerState, after: OwnerState| #[trigger]
                self.turns(before, after) && after.keeps(before) && self.aborts(
                    before,
                    after,
                    scope,
                    outcome,
                ),
    {
        let (state, handle) = self.shared.acquire_write();
        let ghost before = state;
        if state.book.id != scope.id {
            handle.release_write(state);
            assert(self.is_taken(state, handle) && given_back(handle, state));
            assert(self.turns(state, state));
            return PreStartAbortOutcome::StaleScope;
        }
        let mut state = state;
        match state.gate.cancel_before_start() {
            Err(start_at_zone_us) => {
                handle.release_write(state);
                assert(self.is_taken(state, handle) && given_back(handle, state));
                assert(self.turns(state, state));
                PreStartAbortOutcome::BoundaryWon { start_at_zone_us }
            },
            Ok(_) => {
                self.open.store(0, Ordering::Release);
                let ack = TerminalAck { released: false, stopped: false };
                let result = state.book.accounts.finalize(TerminalWinner::PreStartAbort, ack);
                assert(before.book.steps_to(
                    scope,
                    AccountStep::Finalize { winner: TerminalWinner::PreStartAbort, ack },
                    state.book,
                ));
                handle.release_write(state);
                assert(self.is_taken(before, handle) && given_back(handle, state));
                assert(self.turns(before, state));
                match result {
                    Ok(finalization) => PreStartAbortOutcome::Won(finalization),
                    Err(finalization) => PreStartAbortOutcome::AlreadyFinalized(finalization),
                }
            },
        }
    }

    pub fn terminal_state(&self, scope: PlayerScope) -> (state: Result<
        TerminalState,
        RendererOperationOutcome,
    >)
        ensures
            state matches Err(error) ==> error == RendererOperationOutcome::StaleScope,
            exists|found: OwnerState| #[trigger]
                self.turns(found, found) && match state {
                    Ok(end) => found.book.id == scope.id && end == found.book.accounts.end_state(),
                    Err(_) => found.book.id != scope.id,
                },
    {
        match self.health(scope) {
            Ok(health) => Ok(health.accounts.terminal_state()),
            Err(error) => Err(error),
        }
    }

    /// Arm a start. `Err` says that a callback is in the way; the caller asks
    /// again.
    pub fn arm_scheduled_start(&self, scope: PlayerScope, boundary: i64) -> (result: Result<
        ScheduledArmOutcome,
        (),
    >)
        ensures
            exists|found: OwnerState| #[trigger]
                self.turns(found, found) && match found.book.answer(scope) {
                    RendererOperationOutcome::StaleScope => result == Ok::<ScheduledArmOutcome, ()>(
                        ScheduledArmOutcome::StaleScope,
                    ),
                    RendererOperationOutcome::Closed => result == Ok::<ScheduledArmOutcome, ()>(
                        ScheduledArmOutcome::Closed,
                    ),
                    RendererOperationOutcome::Applied => found.gate.arms(boundary, result),
                },
    {
        let (state, handle) = self.shared.acquire_write();
        let result = if state.book.id != scope.id {
            Ok(ScheduledArmOutcome::StaleScope)
        } else if state.book.accounts.closed {
            Ok(ScheduledArmOutcome::Closed)
        } else {
            state.gate.try_arm(boundary)
        };
        handle.release_write(state);
        assert(self.is_taken(state, handle) && given_back(handle, state));
        assert(self.turns(state, state));
        result
    }

    pub fn start_state(&self, scope: PlayerScope) -> (phase: Result<
        StartState,
        RendererOperationOutcome,
    >)
        ensures
            phase matches Err(error) ==> error == RendererOperationOutcome::StaleScope,
            self.shows_phase(scope, phase),
    {
        let (state, handle) = self.shared.acquire_write();
        let result = if state.book.id != scope.id {
            Err(RendererOperationOutcome::StaleScope)
        } else {
            Ok(state.gate.start_state())
        };
        handle.release_write(state);
        assert(self.is_taken(state, handle) && given_back(handle, state));
        assert(self.turns(state, state));
        result
    }

    /// Leave to act as the callback of a scope that is open.
    pub fn try_callback_permit(&self, scope: PlayerScope) -> (permit: Option<CallbackPermit>)
        ensures
            permit matches Some(p) ==> p.of() == *self && p.for_scope() == scope,
            self.is_checked(scope, permit is None),
    {
        if self.needs_terminal_check(scope) {
            None
        } else {
            Some(CallbackPermit { owner: self.clone(), scope })
        }
    }
}

/// Leave to act as the callback of a scope.
pub struct CallbackPermit {
    owner: RendererOwner,
    scope: PlayerScope,
}

impl CallbackPermit {
    pub closed spec fn of(&self) -> RendererOwner {
        self.owner
    }

    pub closed spec fn for_scope(&self) -> PlayerScope {
        self.scope
    }

    /// Ask whether output may start, as a callback of its own. `Err` says that
    /// another callback is active.
    pub fn scheduled_start(&self, presentation: Option<i64>) -> (result: Result<
        ScheduledStartOutcome,
        (),
    >)
        ensures
            result matches Ok(outcome) ==> outcome == ScheduledStartOutcome::StaleScope || answers(
                presentation,
                outcome,
            ),
            exists|found: OwnerState| #[trigger]
                self.of().turns(found, found) && if found.book.id != self.for_scope().id {
                    result == Ok::<ScheduledStartOutcome, ()>(ScheduledStartOutcome::StaleScope)
                } else {
                    exists|previous: u64| #[trigger]
                        found.gate.is_entered(previous) && match result {
                            Ok(outcome) => !control(previous).active && found.gate.starts(
                                presentation,
                                outcome,
                            ),
                            Err(_) => control(previous).active,
                        }
                },
    {
        let answer = self.owner.control_gate(self.scope);
        let ghost found = choose|found: OwnerState| #[trigger]
            self.owner.turns(found, found) && match answer {
                Ok(g) => found.book.id == self.scope.id && g == found.gate,
                Err(_) => found.book.id != self.scope.id,
            };
        assert(self.of().turns(found, found));
        let gate: Arc<ControlGate> = match answer {
            Ok(gate) => gate,
            Err(_) => {
                return Ok(ScheduledStartOutcome::StaleScope);
            },
        };
        let result = match gate.begin_callback() {
            Some(callback) => Ok(callback.decide_start(presentation)),
            None => Err(()),
        };
        result
    }

    /// Account for frames that an actual device has played, and for what the
    /// queue holds after that.
    pub fn record_actual_progress(
        &self,
        frames: usize,
        boundary: Option<i64>,
        queued_frames: usize,
        queued_buffers: usize,
    ) -> (outcome: RendererOperationOutcome)
        ensures
            self.of().progresses(
                self.for_scope(),
                frames,
                boundary,
                queued_frames,
                queued_buffers,
                outcome,
            ),
    {
        let recorded = self.owner.record_callback(self.scope, frames, 0, boundary);
        assert(self.of().accounts_for(
            self.for_scope(),
            AccountStep::Callback { frames, underrun: 0, boundary },
            Some(frames),
            recorded,
        ));
        match recorded {
            RendererOperationOutcome::Applied => self.owner.reconcile_queue(
                self.scope,
                queued_frames,
                queued_buffers,
            ),
            other => other,
        }
    }
}

} // verus!
