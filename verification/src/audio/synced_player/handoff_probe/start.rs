//! Who decides a scheduled start.
//!
//! `StartAuthority` keeps a versioned phase of its own; `GateStartAuthority`
//! keeps only the boundary and reads the phase out of the control gate. Requests
//! to arm and to clear are serialized by the owner. A callback makes one attempt.
use crate::audio::synced_player::ingress::control::{
    arm_answers, arm_step, control, lemma_closed, reached, start_answers,
    start_step, ArmStep, Control, StartStep, START_ARMED, START_CLOSED, START_WON,
};
use crate::audio::synced_player::ingress::{ControlGate, GateView};
use crate::audio::synced_player::shared::{
    got_i64, got_u64, made_i64, made_u64, put_i64, replaced, swapped, update, updated,
};
use crate::audio::{ScheduledArmOutcome, ScheduledStartOutcome, StartState};
use std::sync::atomic::{AtomicI64, AtomicU64, Ordering};
use std::sync::Arc;
use vstd::prelude::*;

verus! {

pub const ARMED: u64 = 1;

pub const WON: u64 = 2;

pub const CLOSED: u64 = 4;

pub const KIND: u64 = 3;

pub const VERSION_STEP: u64 = 8;

/// The largest word that has a next version.
pub const LAST_VERSIONED: u64 = 0xFFFF_FFFF_FFFF_FFF7;

/// A decoded authority word. The phase is idle when it is neither armed nor won.
pub struct Phase {
    pub version: u64,
    pub armed: bool,
    pub won: bool,
    pub closed: bool,
}

pub open spec fn phase(word: u64) -> Phase {
    Phase {
        version: word >> 3,
        armed: word & 3 == 1,
        won: word & 3 != 0 && word & 3 != 1,
        closed: word & 4 != 0,
    }
}

/// Arming takes the next version. A word without one is used up, and closed to
/// further requests.
pub open spec fn armed_says(before: Phase, word: u64, stored: i64, step: ArmStep) -> bool {
    if before.closed {
        step == ArmStep::Done(ScheduledArmOutcome::Closed)
    } else if before.armed {
        step == ArmStep::Done(ScheduledArmOutcome::AlreadyArmed { start_at_zone_us: stored })
    } else if before.won {
        step == ArmStep::Done(ScheduledArmOutcome::BoundaryAlreadyWon { start_at_zone_us: stored })
    } else if word > LAST_VERSIONED {
        step == ArmStep::Done(ScheduledArmOutcome::Closed)
    } else {
        step matches ArmStep::Attempt(next) && phase(next) == (Phase {
            version: (before.version + 1) as u64,
            armed: true,
            ..before
        })
    }
}

pub fn arm_word(word: u64, stored: i64) -> (step: ArmStep)
    ensures
        armed_says(phase(word), word, stored, step),
{
    if word & CLOSED != 0 {
        return ArmStep::Done(ScheduledArmOutcome::Closed);
    }
    let kind: u64 = word & KIND;
    if kind == ARMED {
        return ArmStep::Done(ScheduledArmOutcome::AlreadyArmed { start_at_zone_us: stored });
    }
    if kind != 0 {
        return ArmStep::Done(ScheduledArmOutcome::BoundaryAlreadyWon { start_at_zone_us: stored });
    }
    if word > LAST_VERSIONED {
        return ArmStep::Done(ScheduledArmOutcome::Closed);
    }
    let next: u64 = (word + VERSION_STEP) | ARMED;
    proof {
        let stepped: u64 = (word + VERSION_STEP) as u64;
        assert(next >> 3 == (word >> 3) + 1 && next & 3 == 1 && (next & 4 == 0)) by (bit_vector)
            requires
                word <= 0xFFFF_FFFF_FFFF_FFF7u64,
                word & 3 == 0,
                word & 4 == 0,
                stepped == word + 8,
                next == stepped | 1,
        ;
    }
    ArmStep::Attempt(next)
}

/// What an evaluation meets.
#[derive(Clone, Copy, Debug, PartialEq, Eq, Structural)]
pub enum EvaluateStep {
    /// The answer is settled by the word alone.
    Done(ScheduledStartOutcome),
    /// The boundary is ahead, if the word that it was read under still stands.
    Confirm,
    /// The boundary is reached and this word is attempted.
    Attempt(u64),
}

pub open spec fn evaluated_says(
    before: Phase,
    stored: i64,
    presentation: Option<i64>,
    step: EvaluateStep,
) -> bool {
    if before.closed {
        step == EvaluateStep::Done(ScheduledStartOutcome::Closed)
    } else if before.won {
        step == EvaluateStep::Done(ScheduledStartOutcome::Started { start_at_zone_us: stored })
    } else if !before.armed {
        step == EvaluateStep::Done(ScheduledStartOutcome::Unscheduled)
    } else if !reached(presentation, stored) {
        step == EvaluateStep::Confirm
    } else {
        step matches EvaluateStep::Attempt(next) && phase(next) == (Phase {
            armed: false,
            won: true,
            ..before
        })
    }
}

pub fn evaluate_word(word: u64, stored: i64, presentation: Option<i64>) -> (step: EvaluateStep)
    ensures
        evaluated_says(phase(word), stored, presentation, step),
{
    if word & CLOSED != 0 {
        return EvaluateStep::Done(ScheduledStartOutcome::Closed);
    }
    let kind: u64 = word & KIND;
    if kind == 0 {
        return EvaluateStep::Done(ScheduledStartOutcome::Unscheduled);
    }
    if kind != ARMED {
        return EvaluateStep::Done(ScheduledStartOutcome::Started { start_at_zone_us: stored });
    }
    let due: bool = match presentation {
        Some(at) => at >= stored,
        None => false,
    };
    if !due {
        return EvaluateStep::Confirm;
    }
    let next: u64 = (word & !KIND) | WON;
    proof {
        assert(next >> 3 == word >> 3 && next & 3 == 2 && ((next & 4 != 0) == (word & 4 != 0)))
            by (bit_vector)
            requires
                next == (word & !3u64) | 2,
        ;
    }
    EvaluateStep::Attempt(next)
}

/// Cancelling closes, unless the start is won.
pub fn cancel_word(word: u64) -> (next: Option<u64>)
    ensures
        match next {
            Some(n) => !phase(word).won && phase(n) == (Phase { closed: true, ..phase(word) }),
            None => phase(word).won,
        },
{
    let kind: u64 = word & KIND;
    if kind != 0 && kind != ARMED {
        return None;
    }
    let next: u64 = word | CLOSED;
    proof {
        assert(next >> 3 == word >> 3 && next & 3 == word & 3 && next & 4 != 0) by (bit_vector)
            requires
                next == word | 4,
        ;
    }
    Some(next)
}

/// Clearing disarms and takes the next version. A start that is won, a closed
/// authority and one whose versions are used up stay as they are.
pub fn clear_word(word: u64) -> (next: Option<u64>)
    ensures
        match next {
            Some(n) => !phase(word).won && !phase(word).closed && word <= LAST_VERSIONED && phase(n)
                == (Phase {
                version: (phase(word).version + 1) as u64,
                armed: false,
                ..phase(word)
            }),
            None => phase(word).won || phase(word).closed || word > LAST_VERSIONED,
        },
{
    let kind: u64 = word & KIND;
    if (kind != 0 && kind != ARMED) || word & CLOSED != 0 || word > LAST_VERSIONED {
        return None;
    }
    let idle: u64 = word & !KIND;
    proof {
        assert(idle <= word) by (bit_vector)
            requires
                idle == word & !3u64,
        ;
    }
    let next: u64 = idle + VERSION_STEP;
    proof {
        assert(next >> 3 == (word >> 3) + 1 && next & 3 == 0 && ((next & 4 != 0) == (word & 4
            != 0))) by (bit_vector)
            requires
                word <= 0xFFFF_FFFF_FFFF_FFF7u64,
                idle == word & !3u64,
                next == idle + 8,
        ;
    }
    Some(next)
}

/// One successful transition of an authority word.
pub open spec fn authority_steps(a: u64, b: u64) -> bool {
    let before = phase(a);
    let after = phase(b);
    // armed
    ||| !before.closed && !before.armed && !before.won && after == (Phase {
        version: (before.version + 1) as u64,
        armed: true,
        ..before
    }) && a <= LAST_VERSIONED
    // won
    ||| !before.closed && before.armed && after == (Phase { armed: false, won: true, ..before })
    // cancelled
    ||| !before.won && after == (Phase { closed: true, ..before })
    // cleared
    ||| !before.won && !before.closed && after == (Phase {
        version: (before.version + 1) as u64,
        armed: false,
        ..before
    }) && a <= LAST_VERSIONED
}

proof fn lemma_versions_fit(word: u64)
    requires
        word <= LAST_VERSIONED,
    ensures
        phase(word).version + 1 <= 0x1FFF_FFFF_FFFF_FFFF,
{
    assert((word >> 3) + 1 <= 0x1FFF_FFFF_FFFF_FFFF) by (bit_vector)
        requires
            word <= 0xFFFF_FFFF_FFFF_FFF7u64,
    ;
}

proof fn lemma_authority_run(words: Seq<u64>, from: int, to: int)
    requires
        0 <= from <= to < words.len(),
        forall|i: int|
            0 <= i < words.len() - 1 ==> #[trigger] authority_steps(words[i], words[i + 1]),
    ensures
        phase(words[from]).version <= phase(words[to]).version,
        phase(words[from]).won ==> phase(words[to]) == phase(words[from]) && phase(words[from]).won,
        phase(words[from]).closed && !phase(words[from]).won ==> phase(words[to]).closed && !phase(
            words[to],
        ).won,
    decreases to - from,
{
    if from < to {
        lemma_authority_run(words, from, to - 1);
        let last = to - 1;
        assert(authority_steps(words[last], words[last + 1]));
        if words[last] <= LAST_VERSIONED {
            lemma_versions_fit(words[last]);
        }
    }
}

/// An old boundary cannot win after a clear and a new arm: once the phase has
/// been cleared or armed anew, the word that an evaluation read never comes
/// back, so the single attempt that names it fails.
pub proof fn an_old_word_never_returns(words: Seq<u64>, read: int, renewed: int, attempt: int)
    requires
        forall|i: int|
            0 <= i < words.len() - 1 ==> #[trigger] authority_steps(words[i], words[i + 1]),
        0 <= read <= renewed < attempt < words.len(),
        phase(words[renewed + 1]).version != phase(words[renewed]).version,
    ensures
        words[attempt] != words[read],
{
    lemma_authority_run(words, read, renewed);
    lemma_authority_run(words, renewed + 1, attempt);
    assert(authority_steps(words[renewed], words[renewed + 1]));
    if words[renewed] <= LAST_VERSIONED {
        lemma_versions_fit(words[renewed]);
    }
}

/// A start that is won stays won, and one that is cancelled is never won.
pub proof fn an_authority_has_one_winner(words: Seq<u64>, at: int, later: int)
    requires
        forall|i: int|
            0 <= i < words.len() - 1 ==> #[trigger] authority_steps(words[i], words[i + 1]),
        0 <= at <= later < words.len(),
    ensures
        phase(words[at]).won ==> phase(words[later]).won,
        phase(words[at]).closed && !phase(words[at]).won ==> !phase(words[later]).won,
{
    lemma_authority_run(words, at, later);
}

/// The start phase of one scope, with a version that every arm and clear renews.
#[derive(Debug)]
pub struct StartAuthority {
    state: AtomicU64,
    boundary: AtomicI64,
}

impl Default for StartAuthority {
    fn default() -> (authority: StartAuthority)
        ensures
            authority.is_fresh(),
    {
        StartAuthority { state: AtomicU64::new(0), boundary: AtomicI64::new(0) }
    }
}

/// The answer to a callback agrees with the boundary that it names.
pub open spec fn answers(presentation: Option<i64>, outcome: ScheduledStartOutcome) -> bool {
    &&& outcome != ScheduledStartOutcome::StaleScope
    &&& outcome matches ScheduledStartOutcome::Waiting { start_at_zone_us } ==> !reached(
        presentation,
        start_at_zone_us,
    )
    &&& outcome matches ScheduledStartOutcome::BoundaryWon { start_at_zone_us } ==> reached(
        presentation,
        start_at_zone_us,
    )
}

/// Whether a phase is armed, and neither closed nor won.
pub open spec fn armed(before: Phase) -> bool {
    before.armed && !before.closed && !before.won
}

/// What a request to arm is answered from the word and the boundary that it finds. Only a
/// cancel defeats its attempt, and it closes.
pub open spec fn armed_by(word: u64, stored: i64, outcome: ScheduledArmOutcome) -> bool {
    let before = phase(word);
    if before.closed {
        outcome == ScheduledArmOutcome::Closed
    } else if before.armed {
        outcome == (ScheduledArmOutcome::AlreadyArmed { start_at_zone_us: stored })
    } else if before.won {
        outcome == (ScheduledArmOutcome::BoundaryAlreadyWon { start_at_zone_us: stored })
    } else if word > LAST_VERSIONED {
        outcome == ScheduledArmOutcome::Closed
    } else {
        outcome == ScheduledArmOutcome::Armed || outcome == ScheduledArmOutcome::Closed
    }
}

/// What a callback is answered from the word and the boundary that it finds. Where a start
/// is armed, the word has to stand still.
pub open spec fn evaluated_by(
    word: u64,
    stored: i64,
    presentation: Option<i64>,
    result: Result<ScheduledStartOutcome, ()>,
) -> bool {
    let before = phase(word);
    if before.closed {
        result == Ok::<ScheduledStartOutcome, ()>(ScheduledStartOutcome::Closed)
    } else if before.won {
        result == Ok::<ScheduledStartOutcome, ()>(
            ScheduledStartOutcome::Started { start_at_zone_us: stored },
        )
    } else if !before.armed {
        result == Ok::<ScheduledStartOutcome, ()>(ScheduledStartOutcome::Unscheduled)
    } else if !reached(presentation, stored) {
        result is Err || result == Ok::<ScheduledStartOutcome, ()>(
            ScheduledStartOutcome::Waiting { start_at_zone_us: stored },
        )
    } else {
        result is Err || result == Ok::<ScheduledStartOutcome, ()>(
            ScheduledStartOutcome::BoundaryWon { start_at_zone_us: stored },
        )
    }
}

/// The same, through the control gate: only within a callback, and an attempt that a
/// cancel defeats is an error.
pub open spec fn decided_by(
    found: GateView,
    stored: i64,
    presentation: Option<i64>,
    result: Result<ScheduledStartOutcome, ()>,
) -> bool {
    let before = found.says();
    if !before.active {
        result is Err
    } else if before.armed && !before.closed && !before.won && reached(presentation, stored) {
        result is Err || result == Ok::<ScheduledStartOutcome, ()>(
            ScheduledStartOutcome::BoundaryWon { start_at_zone_us: stored },
        )
    } else {
        result matches Ok(outcome) && start_answers(before, stored, presentation, outcome)
    }
}

impl StartAuthority {
    /// Both cells were made with nothing in them.
    pub closed spec fn is_fresh(&self) -> bool {
        &&& made_u64(self.state, 0)
        &&& made_i64(self.boundary, 0)
    }

    /// The word was read, and was this.
    pub closed spec fn reads(&self, word: u64) -> bool {
        got_u64(self.state, word)
    }

    /// The word was read once more, and was this.
    pub closed spec fn reads_again(&self, word: u64) -> bool {
        call_ensures(StartAuthority::word_again, (self,), word)
    }

    /// The boundary was read, and was this.
    pub closed spec fn reads_boundary(&self, stored: i64) -> bool {
        got_i64(self.boundary, stored)
    }

    /// This boundary was stored.
    pub closed spec fn stores_boundary(&self, boundary: i64) -> bool {
        put_i64(self.boundary, boundary)
    }

    /// The word was to be replaced by another, and whether that succeeded.
    pub closed spec fn moves(&self, from: u64, to: u64, done: bool) -> bool {
        replaced(self.state, from, to, done)
    }

    /// The word was moved as a step says, and what came of it.
    pub closed spec fn steps<F: Fn(u64) -> Option<u64>>(
        &self,
        step: F,
        result: Result<u64, u64>,
    ) -> bool {
        updated(self.state, step, result)
    }

    /// A start was to be armed, and the answer.
    pub open spec fn arms(&self, boundary: i64, outcome: ScheduledArmOutcome) -> bool {
        exists|word: u64, stored: i64|
            {
                let before = phase(word);
                &&& #[trigger] self.reads(word)
                &&& #[trigger] self.reads_boundary(stored)
                &&& armed_by(word, stored, outcome)
                &&& !before.closed && !before.armed && !before.won && word <= LAST_VERSIONED ==> {
                    &&& self.stores_boundary(boundary)
                    &&& exists|next: u64| #[trigger]
                        self.moves(word, next, outcome is Armed) && phase(next) == (Phase {
                            version: (before.version + 1) as u64,
                            armed: true,
                            ..before
                        })
                }
            }
    }

    /// A callback asked whether it may start, and the answer.
    pub open spec fn evaluates(
        &self,
        presentation: Option<i64>,
        result: Result<ScheduledStartOutcome, ()>,
    ) -> bool {
        exists|word: u64, stored: i64|
            #[trigger] self.reads(word) && #[trigger] self.reads_boundary(stored)
                && self.evaluates_word(word, stored, presentation, result)
    }

    /// The answer from the word and the boundary that were found: an armed start that is
    /// ahead is waited for if the word still stands, and one that is reached is won if
    /// nobody moved the word.
    pub open spec fn evaluates_word(
        &self,
        word: u64,
        stored: i64,
        presentation: Option<i64>,
        result: Result<ScheduledStartOutcome, ()>,
    ) -> bool {
        let before = phase(word);
        &&& evaluated_by(word, stored, presentation, result)
        &&& armed(before) && !reached(presentation, stored) ==> exists|now: u64| #[trigger]
            self.reads_again(now) && result is Ok == (now == word)
        &&& armed(before) && reached(presentation, stored) ==> exists|next: u64| #[trigger]
            self.moves(word, next, result is Ok) && phase(next) == (Phase {
                armed: false,
                won: true,
                ..before
            })
    }

    /// Only a cancel can interfere with an arm, and it closes.
    pub fn arm(&self, boundary: i64) -> (outcome: ScheduledArmOutcome)
        ensures
            outcome != ScheduledArmOutcome::StaleScope,
            self.arms(boundary, outcome),
    {
        let state: u64 = self.state.load(Ordering::Acquire);
        let existing: i64 = self.boundary.load(Ordering::Relaxed);
        let outcome = match arm_word(state, existing) {
            ArmStep::Done(outcome) => outcome,
            ArmStep::Busy => ScheduledArmOutcome::Closed,
            ArmStep::Attempt(next) => {
                self.boundary.store(boundary, Ordering::Relaxed);
                let result = self.state.compare_exchange(
                    state,
                    next,
                    Ordering::Release,
                    Ordering::Acquire,
                );
                assert(swapped(self.state, state, next, result));
                let outcome = if result.is_ok() {
                    ScheduledArmOutcome::Armed
                } else {
                    ScheduledArmOutcome::Closed
                };
                assert(self.moves(state, next, outcome is Armed));
                outcome
            },
        };
        assert(self.reads(state) && self.reads_boundary(existing));
        assert(armed_by(state, existing, outcome));
        outcome
    }

    /// The word, once more.
    fn word_again(&self) -> (word: u64)
        ensures
            self.reads(word),
    {
        self.state.load(Ordering::Acquire)
    }

    pub fn evaluate(&self, presentation: Option<i64>) -> (result: Result<ScheduledStartOutcome, ()>)
        ensures
            result matches Ok(outcome) ==> answers(presentation, outcome),
            self.evaluates(presentation, result),
    {
        self.evaluate_after_read(presentation, || {})
    }

    /// `after_read` runs between the reading of an armed phase and the one
    /// attempt on it. `Err` says that the phase did not stand still.
    pub fn evaluate_after_read<F: FnOnce()>(
        &self,
        presentation: Option<i64>,
        after_read: F,
    ) -> (result: Result<ScheduledStartOutcome, ()>)
        requires
            call_requires(after_read, ()),
        ensures
            result matches Ok(outcome) ==> answers(presentation, outcome),
            exists|word: u64, stored: i64|
                {
                    &&& #[trigger] self.reads(word)
                    &&& #[trigger] self.reads_boundary(stored)
                    &&& self.evaluates_word(word, stored, presentation, result)
                    &&& armed(phase(word)) ==> call_ensures(after_read, (), ())
                },
    {
        let state: u64 = self.state.load(Ordering::Acquire);
        let boundary: i64 = self.boundary.load(Ordering::Relaxed);
        let result = match evaluate_word(state, boundary, presentation) {
            EvaluateStep::Done(outcome) => Ok(outcome),
            EvaluateStep::Confirm => {
                after_read();
                let now: u64 = self.word_again();
                assert(self.reads_again(now));
                if now == state {
                    Ok(ScheduledStartOutcome::Waiting { start_at_zone_us: boundary })
                } else {
                    Err(())
                }
            },
            EvaluateStep::Attempt(next) => {
                after_read();
                let swap = self.state.compare_exchange(
                    state,
                    next,
                    Ordering::AcqRel,
                    Ordering::Acquire,
                );
                assert(swapped(self.state, state, next, swap));
                let result = if swap.is_ok() {
                    Ok(ScheduledStartOutcome::BoundaryWon { start_at_zone_us: boundary })
                } else {
                    Err(())
                };
                assert(self.moves(state, next, result is Ok));
                result
            },
        };
        assert(self.reads(state) && self.reads_boundary(boundary));
        assert(evaluated_by(state, boundary, presentation, result));
        result
    }

    /// A claim on the start, not an acknowledgment that a stream has stopped.
    /// `Err` is the boundary of the start that was won.
    pub fn cancel(&self) -> (result: Result<(), i64>)
        ensures
            exists|moved: Result<u64, u64>| #[trigger]
                self.steps(cancel_word, moved) && match (moved, result) {
                    (Ok(word), Ok(_)) => !phase(word).won,
                    (Err(word), Err(stored)) => phase(word).won && self.reads_boundary(stored),
                    _ => false,
                },
    {
        let moved = update(&self.state, cancel_word);
        assert(self.steps(cancel_word, moved));
        match moved {
            Ok(_) => Ok(()),
            Err(_) => Err(self.boundary.load(Ordering::Relaxed)),
        }
    }

    pub fn clear_unstarted(&self)
        ensures
            exists|moved: Result<u64, u64>| #[trigger] self.steps(clear_word, moved),
    {
        let moved = update(&self.state, clear_word);
        assert(self.steps(clear_word, moved));
    }
}

/// Whoever can answer a callback that asks to start.
pub trait StartDecision {
    fn decide(&self, presentation: Option<i64>) -> (result: Result<ScheduledStartOutcome, ()>)
        ensures
            result matches Ok(outcome) ==> answers(presentation, outcome),
    ;
}

impl StartDecision for StartAuthority {
    fn decide(&self, presentation: Option<i64>) -> (result: Result<ScheduledStartOutcome, ()>)
        ensures
            self.evaluates(presentation, result),
    {
        self.evaluate(presentation)
    }
}

/// The phase that callers see through the control gate alone: a closed gate shows no
/// armed start.
pub open spec fn gate_phase_says(before: Control, stored: i64) -> StartState {
    if before.won {
        StartState::BoundaryWon { start_at_zone_us: stored }
    } else if before.closed || !before.armed {
        StartState::Idle
    } else {
        StartState::Armed { start_at_zone_us: stored }
    }
}

pub fn gate_phase(word: u64, stored: i64) -> (state: StartState)
    ensures
        state == gate_phase_says(control(word), stored),
{
    if word & START_WON != 0 {
        StartState::BoundaryWon { start_at_zone_us: stored }
    } else if word & START_CLOSED != 0 || word & START_ARMED == 0 {
        StartState::Idle
    } else {
        StartState::Armed { start_at_zone_us: stored }
    }
}

/// Closing through the control gate alone, unless the start is won. The start stays
/// armed behind the close.
pub fn gate_cancelled(word: u64) -> (next: Option<u64>)
    ensures
        match next {
            Some(n) => !control(word).won && control(n) == (Control {
                closed: true,
                ..control(word)
            }),
            None => control(word).won,
        },
{
    if word & START_WON != 0 {
        None
    } else {
        let next: u64 = word | START_CLOSED;
        proof {
            lemma_closed(word, next);
        }
        Some(next)
    }
}

/// The boundary of a start whose phase lives in the control gate.
#[derive(Debug)]
pub struct GateStartAuthority {
    gate: Arc<ControlGate>,
    boundary: AtomicI64,
}

impl GateStartAuthority {
    /// The control gate that holds the phase.
    pub closed spec fn of(&self) -> Arc<ControlGate> {
        self.gate
    }

    /// The boundary was made with nothing in it.
    pub closed spec fn is_fresh(&self) -> bool {
        made_i64(self.boundary, 0)
    }

    /// The boundary was read, and was this.
    pub closed spec fn reads_boundary(&self, stored: i64) -> bool {
        got_i64(self.boundary, stored)
    }

    /// This boundary was stored.
    pub closed spec fn stores_boundary(&self, boundary: i64) -> bool {
        put_i64(self.boundary, boundary)
    }

    /// A start was to be armed, and the answer.
    pub open spec fn arms(&self, boundary: i64, result: Result<ScheduledArmOutcome, ()>) -> bool {
        exists|found: GateView, stored: i64|
            {
                let before = found.says();
                &&& #[trigger] self.of().shows(found)
                &&& #[trigger] self.reads_boundary(stored)
                &&& arm_answers(before, stored, result)
                &&& !before.closed && !before.active && !before.won && !before.armed ==> {
                    &&& self.stores_boundary(boundary)
                    &&& exists|next: u64| #[trigger]
                        self.of().moves(found.word, next, result is Ok) && control(next) == (
                        Control { armed: true, ..before })
                }
            }
    }

    /// A callback asked whether it may start, and the answer.
    pub open spec fn decides(
        &self,
        presentation: Option<i64>,
        result: Result<ScheduledStartOutcome, ()>,
    ) -> bool {
        exists|found: GateView, stored: i64|
            {
                let before = found.says();
                &&& #[trigger] self.of().shows(found)
                &&& #[trigger] self.reads_boundary(stored)
                &&& decided_by(found, stored, presentation, result)
                &&& before.active && before.armed && !before.closed && !before.won && reached(
                    presentation,
                    stored,
                ) ==> exists|next: u64| #[trigger]
                    self.of().moves(found.word, next, result is Ok) && control(next) == (Control {
                        armed: false,
                        won: true,
                        ..before
                    })
            }
    }

    pub fn new(gate: Arc<ControlGate>) -> (authority: GateStartAuthority)
        ensures
            authority.of() == gate,
            authority.is_fresh(),
    {
        GateStartAuthority { gate, boundary: AtomicI64::new(0) }
    }

    /// Serialized by the owner, who asks again after `Err`.
    pub fn arm(&self, boundary: i64) -> (result: Result<ScheduledArmOutcome, ()>)
        ensures
            result != Ok::<ScheduledArmOutcome, ()>(ScheduledArmOutcome::StaleScope),
            self.arms(boundary, result),
    {
        let view = self.gate.view();
        let old: i64 = self.boundary.load(Ordering::Relaxed);
        let result = match arm_step(view.word, old) {
            ArmStep::Done(outcome) => Ok(outcome),
            ArmStep::Busy => Err(()),
            ArmStep::Attempt(next) => {
                self.boundary.store(boundary, Ordering::Relaxed);
                let result = if self.gate.attempt(view.word, next) {
                    Ok(ScheduledArmOutcome::Armed)
                } else {
                    Err(())
                };
                assert(self.of().moves(view.word, next, result is Ok));
                result
            },
        };
        assert(self.of().shows(view) && self.reads_boundary(old));
        assert(arm_answers(view.says(), old, result));
        result
    }

    pub fn snapshot(&self) -> (state: StartState)
        ensures
            exists|found: GateView, stored: i64| #[trigger]
                self.of().shows(found) && #[trigger] self.reads_boundary(stored) && state
                    == gate_phase_says(found.says(), stored),
    {
        let view = self.gate.view();
        let boundary: i64 = self.boundary.load(Ordering::Relaxed);
        assert(self.of().shows(view) && self.reads_boundary(boundary));
        gate_phase(view.word, boundary)
    }

    /// A claim on the start. `Err` is the boundary of the start that was won.
    pub fn cancel(&self) -> (result: Result<(), i64>)
        ensures
            exists|moved: Result<u64, u64>| #[trigger]
                self.of().steps(gate_cancelled, moved) && match (moved, result) {
                    (Ok(word), Ok(_)) => !control(word).won,
                    (Err(word), Err(stored)) => control(word).won && self.reads_boundary(stored),
                    _ => false,
                },
    {
        let moved = self.gate.change(gate_cancelled);
        assert(self.of().steps(gate_cancelled, moved));
        match moved {
            Ok(_) => Ok(()),
            Err(_) => Err(self.boundary.load(Ordering::Relaxed)),
        }
    }

    /// Asked from within a callback, which keeps the boundary and the phase from
    /// being replaced. `Err` says that the start was cancelled, or that no
    /// callback is active.
    pub fn decide_after_read<F: FnOnce()>(
        &self,
        presentation: Option<i64>,
        after_read: F,
    ) -> (result: Result<ScheduledStartOutcome, ()>)
        requires
            call_requires(after_read, ()),
        ensures
            call_ensures(after_read, (), ()),
            result matches Ok(outcome) ==> answers(presentation, outcome),
            self.decides(presentation, result),
    {
        let view = self.gate.view();
        after_read();
        let boundary: i64 = self.boundary.load(Ordering::Relaxed);
        assert(self.of().shows(view) && self.reads_boundary(boundary));
        if !view.callback_active() {
            assert(decided_by(view, boundary, presentation, Err(())));
            return Err(());
        }
        let result = match start_step(view.word, boundary, presentation) {
            StartStep::Done(outcome) => Ok(outcome),
            StartStep::Attempt(next) => {
                let result = if self.gate.attempt(view.word, next) {
                    Ok(ScheduledStartOutcome::BoundaryWon { start_at_zone_us: boundary })
                } else {
                    Err(())
                };
                assert(self.of().moves(view.word, next, result is Ok));
                result
            },
        };
        assert(decided_by(view, boundary, presentation, result));
        result
    }
}

impl StartDecision for GateStartAuthority {
    fn decide(&self, presentation: Option<i64>) -> (result: Result<ScheduledStartOutcome, ()>)
        ensures
            self.decides(presentation, result),
    {
        self.decide_after_read(presentation, || {})
    }
}

} // verus!
