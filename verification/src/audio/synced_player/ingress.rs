//! Scope-local control and actual-position publication for realtime consumption.
//! The owner serializes non-realtime controls. A callback never acquires or
//! waits for the observation lease.
pub mod checkpoint;
pub mod control;
pub mod decisions;
pub mod protocol;
pub mod transitions;

use crate::audio::synced_player::shared::{
    got_i64, got_u64, keep, kept_bits, lower, lowered, made_u64, put_i64, put_u64, raised_bits,
    replaced, swapped, taken, update, updated,
};
use crate::audio::{ScheduledArmOutcome, ScheduledStartOutcome, StartState};
use control::{
    arm_answers, arm_step, cancelled_control, claimed_control, closed_control, committed_control,
    committed_says, control, is_active, is_pending, observed_control, phase_says, reached,
    start_answers, start_phase, start_step, version_control, ArmStep, Notice, StartStep,
    ACKNOWLEDGE_MASK, CALLBACK_ACTIVE, ENTER_MASK, EPOCH_LIMIT, EPOCH_SHIFT, FINISH_MASK,
    LEAVE_MASK, REANCHORED_TIMELINE, REVOKED_CURRENT,
};
use std::sync::atomic::{AtomicBool, AtomicI64, AtomicU64, Ordering};
use vstd::prelude::*;

verus! {

/// One reading of the control gate: its control word, and the identity of the source
/// that the device is in, or 0.
#[derive(Clone, Copy, Debug, PartialEq, Eq, Structural)]
pub struct GateView {
    pub word: u64,
    pub current: u64,
}

impl GateView {
    pub open spec fn says(self) -> control::Control {
        control(self.word)
    }

    pub fn epoch(self) -> (epoch: u64)
        ensures
            epoch == self.says().epoch,
    {
        self.word >> EPOCH_SHIFT
    }

    pub fn callback_active(self) -> (active: bool)
        ensures
            active == self.says().active,
    {
        self.word & CALLBACK_ACTIVE != 0
    }

    pub fn current(self) -> (current: u64)
        ensures
            current == self.current,
    {
        self.current
    }

    pub fn timeline_reanchored(self) -> (reanchored: bool)
        ensures
            reanchored == self.says().reanchored,
    {
        self.word & REANCHORED_TIMELINE != 0
    }

    pub fn current_revoked(self) -> (revoked: bool)
        ensures
            revoked == self.says().revoked,
    {
        self.word & REVOKED_CURRENT != 0
    }
}

/// The control word, the identity of the current source and the start boundary
/// of one scope, shared between the owner, the worker and the device.
#[derive(Debug)]
pub struct ControlGate {
    control: AtomicU64,
    current: AtomicU64,
    boundary: AtomicI64,
    // Lease of one observation at a time. It keeps a second observation from
    // wiping the trace of a callback while an older one can still commit.
    observing: AtomicBool,
}

/// A reading of the control gate between callbacks, under the observation lease. It is
/// spent by a commit, and the lease ends with it.
#[derive(Debug)]
pub struct Observation<'a> {
    gate: &'a ControlGate,
    view: GateView,
}

impl<'a> Observation<'a> {
    /// The control gate that was observed.
    pub closed spec fn of(&self) -> &ControlGate {
        self.gate
    }

    /// What was observed.
    pub closed spec fn seen(&self) -> GateView {
        self.view
    }

    pub fn view(&self) -> (view: GateView)
        ensures
            view == self.seen(),
    {
        self.view
    }

    pub fn gate(&self) -> (gate: &'a ControlGate)
        ensures
            gate == self.of(),
    {
        self.gate
    }

    /// Whether a commit still has a version to take.
    pub fn can_commit(&self) -> (can: bool)
        ensures
            can == (self.seen().says().epoch + 1 < EPOCH_LIMIT),
    {
        proof {
            control::epoch_is_bounded(self.view.word);
        }
        self.view.epoch() + 1 < EPOCH_LIMIT
    }
}

/// What was observed, if anything was.
pub open spec fn seen_in(observation: Option<Observation<'_>>) -> Option<GateView> {
    match observation {
        Some(o) => Some(o.seen()),
        None => None,
    }
}

impl<'a> Drop for Observation<'a> {
    fn drop(&mut self)
        opens_invariants none
        no_unwind
    {
        lower(&self.gate.observing);
    }
}

impl Default for ControlGate {
    fn default() -> (gate: ControlGate)
        ensures
            gate.begins_with(0),
    {
        ControlGate {
            control: AtomicU64::new(0),
            current: AtomicU64::new(0),
            boundary: AtomicI64::new(0),
            observing: AtomicBool::new(false),
        }
    }
}

/// Closing succeeds on every word.
pub fn closed_always(word: u64) -> (next: Option<u64>)
    ensures
        next matches Some(n) && control(n) == control::closed_says(control(word)),
{
    Some(closed_control(word))
}

impl ControlGate {
    /// The control gate was made with this word, with no source current.
    pub closed spec fn begins_with(&self, word: u64) -> bool {
        &&& made_u64(self.control, word)
        &&& made_u64(self.current, 0)
    }

    /// The two parts of this view were read from the control gate.
    pub closed spec fn shows(&self, view: GateView) -> bool {
        &&& got_u64(self.control, view.word)
        &&& got_u64(self.current, view.current)
    }

    /// What the control gate shows was read once more, after something was done to it.
    pub open spec fn shows_again(&self, view: GateView) -> bool {
        &&& self.shows(view)
        &&& self.looks_again(view)
    }

    /// The control gate was looked at for that.
    pub closed spec fn looks_again(&self, view: GateView) -> bool {
        call_ensures(ControlGate::look, (self,), view)
    }

    /// The control word was read, and was this.
    pub closed spec fn reads(&self, word: u64) -> bool {
        got_u64(self.control, word)
    }

    /// The current source was read, and was this.
    pub closed spec fn reads_current(&self, current: u64) -> bool {
        got_u64(self.current, current)
    }

    /// The control word was to be replaced by another, and whether that succeeded.
    pub closed spec fn moves(&self, from: u64, to: u64, done: bool) -> bool {
        replaced(self.control, from, to, done)
    }

    /// The control word was moved as a step says, and what came of it.
    pub closed spec fn steps<F: Fn(u64) -> Option<u64>>(
        &self,
        step: F,
        result: Result<u64, u64>,
    ) -> bool {
        updated(self.control, step, result)
    }

    /// A step that replaced a word gave another one for it.
    pub(crate) proof fn lemma_stepped<F: Fn(u64) -> Option<u64>>(&self, step: F, found: u64)
        requires
            self.steps(step, Ok::<u64, u64>(found)),
        ensures
            exists|next: u64| call_ensures(step, (found,), Some(next)),
    {
    }

    /// A callback was to enter, and found this word.
    pub closed spec fn is_entered(&self, previous: u64) -> bool {
        raised_bits(self.control, ENTER_MASK, previous)
    }

    /// The callback left: of the control word only these bits were kept.
    pub closed spec fn is_left(&self) -> bool {
        call_ensures(keep, (&self.control, LEAVE_MASK), ())
    }

    /// This was made the current source.
    pub closed spec fn makes_current(&self, current: u64) -> bool {
        put_u64(self.current, current)
    }

    /// The current source was released, and with it both notices.
    pub closed spec fn releases_current(&self) -> bool {
        &&& put_u64(self.current, 0)
        &&& kept_bits(self.control, FINISH_MASK)
    }

    /// A new timeline was acknowledged.
    pub closed spec fn acknowledges(&self) -> bool {
        kept_bits(self.control, ACKNOWLEDGE_MASK)
    }

    /// The boundary was read, and was this.
    pub closed spec fn reads_boundary(&self, stored: i64) -> bool {
        got_i64(self.boundary, stored)
    }

    /// This was stored as the boundary.
    pub closed spec fn stores_boundary(&self, boundary: i64) -> bool {
        put_i64(self.boundary, boundary)
    }

    /// The observation lease was asked for, and whether it was given.
    pub closed spec fn leases(&self, given: bool) -> bool {
        taken(self.observing, given)
    }

    /// The observation lease was given back.
    pub closed spec fn gives_lease_back(&self) -> bool {
        lowered(self.observing)
    }

    /// An observation was tried: it needs the lease, a word without an active callback, and
    /// that nobody moves the word meanwhile. Where it fails, the lease goes back.
    pub open spec fn observes(&self, seen: Option<GateView>) -> bool {
        exists|leased: bool| #[trigger]
            self.leases(leased) && if leased {
                seen is None ==> self.gives_lease_back()
            } else {
                seen is None
            } && (leased ==> exists|before: u64| #[trigger]
                self.reads(before) && self.observes_word(before, seen))
    }

    pub open spec fn observes_word(&self, before: u64, seen: Option<GateView>) -> bool {
        if control(before).active {
            seen is None
        } else {
            exists|after: u64, done: bool|
                {
                    &&& #[trigger] self.moves(before, after, done)
                    &&& control(after) == (control::Control { dirty: false, ..control(before) })
                    &&& match seen {
                        Some(view) => done && view.word == after && self.reads_current(view.current),
                        None => !done,
                    }
                }
        }
    }

    /// An observation was validated: its word was still there, or not.
    pub open spec fn validates(&self, seen: GateView, stood: bool) -> bool {
        self.moves(seen.word, seen.word, stood)
    }

    /// What rests on an observation was confirmed once it was made, or not: the observation
    /// was validated for that.
    pub open spec fn is_confirmed(&self, seen: GateView, stood: bool) -> bool {
        &&& self.validates(seen, stood)
        &&& self.confirms(seen, stood)
    }

    /// An observation was checked for that.
    pub closed spec fn confirms(&self, seen: GateView, stood: bool) -> bool {
        exists|observation: Observation<'_>| #[trigger]
            call_ensures(ControlGate::check, (self, &observation), stood) && observation.seen()
                == seen
    }

    /// A decision was made final once it was made, or not.
    pub open spec fn is_concluded(
        &self,
        seen: GateView,
        replaces: bool,
        stands: Option<GateView>,
    ) -> bool {
        &&& self.concludes(seen, replaces, stands)
        &&& self.finishes(seen, replaces, stands)
    }

    /// An observation was given up for that.
    pub closed spec fn finishes(
        &self,
        seen: GateView,
        replaces: bool,
        stands: Option<GateView>,
    ) -> bool {
        exists|observation: Observation<'_>| #[trigger]
            call_ensures(ControlGate::finish, (self, observation, replaces), stands)
                && observation.seen() == seen
    }

    /// An observation was to be committed, and what came of it: its word was replaced by
    /// the next version, or the control gate showed something else.
    pub open spec fn commits(
        &self,
        seen: GateView,
        notice: Notice,
        result: Result<GateView, GateView>,
    ) -> bool {
        match result {
            Ok(v) => {
                &&& v.current == seen.current
                &&& Some(v.says()) == committed_says(seen.says(), notice)
                &&& self.moves(seen.word, v.word, true)
            },
            Err(v) => {
                &&& self.shows(v)
                &&& committed_says(seen.says(), notice) matches Some(next) ==> exists|word: u64|
                    control(word) == next && #[trigger] self.moves(seen.word, word, false)
            },
        }
    }

    /// A decision was made final, or not: by a new version where it replaces, else by
    /// validating what it rests on.
    pub open spec fn concludes(
        &self,
        seen: GateView,
        replaces: bool,
        stands: Option<GateView>,
    ) -> bool {
        if !replaces {
            &&& self.validates(seen, stands is Some)
            &&& stands matches Some(v) ==> v == seen
        } else if committed_says(seen.says(), Notice::Replaced) is None {
            stands is None
        } else {
            exists|result: Result<GateView, GateView>| #[trigger]
                self.commits(seen, Notice::Replaced, result) && match stands {
                    Some(v) => result == Ok::<GateView, GateView>(v),
                    None => result is Err,
                }
        }
    }

    /// A source was to be claimed, and whether that succeeded: in the version that it was
    /// published for, while nothing was current, and as long as nobody moved the word.
    pub open spec fn claims(&self, epoch: u64, source: u64, claimed: bool) -> bool {
        exists|empty: GateView| #[trigger]
            self.shows(empty) && if empty.says().epoch == epoch && empty.current == 0 {
                &&& exists|next: u64| #[trigger]
                    self.moves(empty.word, next, claimed) && control(next) == (control::Control {
                        revoked: false,
                        dirty: true,
                        ..empty.says()
                    })
                &&& claimed ==> self.makes_current(source)
            } else {
                !claimed
            }
    }

    /// A start was to be armed, and the answer.
    pub open spec fn arms(&self, boundary: i64, result: Result<ScheduledArmOutcome, ()>) -> bool {
        exists|found: GateView, stored: i64|
            {
                let before = found.says();
                &&& #[trigger] self.shows(found)
                &&& #[trigger] self.reads_boundary(stored)
                &&& arm_answers(before, stored, result)
                &&& !before.closed && !before.active && !before.won && !before.armed ==> {
                    &&& self.stores_boundary(boundary)
                    &&& exists|next: u64| #[trigger]
                        self.moves(found.word, next, result is Ok) && control(next) == (
                        control::Control { armed: true, ..before })
                }
            }
    }

    /// A callback asked whether it may start, and the answer.
    pub open spec fn starts(
        &self,
        presentation: Option<i64>,
        outcome: ScheduledStartOutcome,
    ) -> bool {
        exists|found: GateView, stored: i64|
            {
                let before = found.says();
                &&& #[trigger] self.shows(found)
                &&& #[trigger] self.reads_boundary(stored)
                &&& start_answers(before, stored, presentation, outcome)
                &&& !before.closed && !before.won && before.armed && reached(presentation, stored)
                    ==> exists|next: u64| #[trigger]
                    self.moves(found.word, next, outcome is BoundaryWon) && control(next) == (
                    control::Control { armed: false, won: true, ..before })
            }
    }

    /// The start phase was read.
    pub open spec fn is_in_phase(&self, phase: StartState) -> bool {
        exists|found: GateView, stored: i64| #[trigger]
            self.shows(found) && #[trigger] self.reads_boundary(stored) && phase == phase_says(
                found.says(),
                stored,
            )
    }

    /// A control gate whose versions go on from one that was reached before.
    pub fn resuming(epoch: u64) -> (gate: ControlGate)
        requires
            epoch < EPOCH_LIMIT,
        ensures
            exists|word: u64| #[trigger]
                gate.begins_with(word) && call_ensures(version_control, (epoch,), word),
    {
        let word: u64 = version_control(epoch);
        let gate = ControlGate {
            control: AtomicU64::new(word),
            current: AtomicU64::new(0),
            boundary: AtomicI64::new(0),
            observing: AtomicBool::new(false),
        };
        assert(gate.begins_with(word));
        gate
    }

    /// What the control gate shows at this moment. The two parts are read one after the
    /// other: only an observation that later validates is coherent.
    pub fn view(&self) -> (view: GateView)
        ensures
            self.shows(view),
    {
        let word: u64 = self.control.load(Ordering::Acquire);
        let current: u64 = self.current.load(Ordering::Relaxed);
        GateView { word, current }
    }

    fn look(&self) -> (view: GateView)
        ensures
            self.shows(view),
    {
        self.view()
    }

    /// What the control gate shows, once something was done to it.
    pub(crate) fn view_again(&self) -> (view: GateView)
        ensures
            self.shows_again(view),
    {
        self.look()
    }

    /// Observe between callbacks. `None` while another observation is held,
    /// while a callback is active, or when one interferes.
    pub fn observe(&self) -> (observation: Option<Observation<'_>>)
        ensures
            observation matches Some(o) ==> o.of() == self && !o.seen().says().active
                && !o.seen().says().dirty,
            self.observes(seen_in(observation)),
    {
        let lease = self.observing.compare_exchange(
            false,
            true,
            Ordering::Acquire,
            Ordering::Relaxed,
        );
        assert(self.leases(lease is Ok));
        if lease.is_err() {
            return None;
        }
        let before: u64 = self.control.load(Ordering::Acquire);
        let after: u64 = match observed_control(before) {
            Some(after) => after,
            None => {
                lower(&self.observing);
                assert(self.reads(before) && self.observes_word(before, None));
                return None;
            },
        };
        let swap = self.control.compare_exchange(
            before,
            after,
            Ordering::AcqRel,
            Ordering::Acquire,
        );
        proof {
            assert(swapped(self.control, before, after, swap));
            assert(self.moves(before, after, swap is Ok));
        }
        if swap.is_err() {
            lower(&self.observing);
            assert(self.reads(before) && self.observes_word(before, None));
            return None;
        }
        let current: u64 = self.current.load(Ordering::Relaxed);
        assert(self.reads(before) && self.observes_word(
            before,
            Some(GateView { word: after, current }),
        ));
        Some(Observation { gate: self, view: GateView { word: after, current } })
    }

    /// Enter a callback. One callback is active at a time: `None` is the answer
    /// to a second one.
    pub fn begin_callback(&self) -> (callback: Option<CallbackGuard<'_>>)
        ensures
            callback matches Some(c) ==> c.of() == self,
            exists|previous: u64| #[trigger]
                self.is_entered(previous) && (callback is Some <==> !control(previous).active),
    {
        let previous: u64 = self.control.fetch_or(ENTER_MASK, Ordering::AcqRel);
        assert(self.is_entered(previous));
        if is_active(previous) {
            None
        } else {
            Some(CallbackGuard { gate: self })
        }
    }

    fn end_callback(&self)
        ensures
            self.is_left(),
        opens_invariants none
        no_unwind
    {
        keep(&self.control, LEAVE_MASK);
    }

    fn publish_current(&self, current: u64)
        ensures
            self.makes_current(current),
    {
        self.current.store(current, Ordering::Relaxed);
    }

    fn claim(&self, published_epoch: u64, source: u64) -> (claimed: bool)
        requires
            source != 0,
        ensures
            claimed ==> published_epoch < EPOCH_LIMIT,
            self.claims(published_epoch, source, claimed),
    {
        let empty = self.view();
        match claimed_control(empty.word, empty.current, published_epoch) {
            Some(next) => {
                let stood: bool = self.attempt(empty.word, next);
                proof {
                    control::epoch_is_bounded(empty.word);
                }
                if stood {
                    self.publish_current(source);
                }
                stood
            },
            None => false,
        }
    }

    /// Whether nothing has happened since the observation: no callback, no
    /// commit, no change of the start phase.
    pub fn validate(&self, observation: &Observation<'_>) -> (stood: bool)
        requires
            observation.of() == self,
        ensures
            self.validates(observation.seen(), stood),
    {
        self.attempt(observation.view.word, observation.view.word)
    }

    /// Whether what was made from an observation still stands: it is validated once more.
    pub fn confirm(&self, observation: &Observation<'_>) -> (stood: bool)
        requires
            observation.of() == self,
        ensures
            self.is_confirmed(observation.seen(), stood),
    {
        self.check(observation)
    }

    fn check(&self, observation: &Observation<'_>) -> (stood: bool)
        requires
            observation.of() == self,
        ensures
            self.validates(observation.seen(), stood),
    {
        self.validate(observation)
    }

    pub fn replace(&self, observation: Observation<'_>) -> (result: Result<GateView, GateView>)
        requires
            observation.of() == self,
            observation.seen().says().epoch + 1 < EPOCH_LIMIT,
        ensures
            self.commits(observation.seen(), Notice::Replaced, result),
    {
        self.commit(observation, Notice::Replaced)
    }

    pub fn reanchor(&self, observation: Observation<'_>) -> (result: Result<GateView, GateView>)
        requires
            observation.of() == self,
            observation.seen().says().epoch + 1 < EPOCH_LIMIT,
        ensures
            self.commits(observation.seen(), Notice::Reanchored, result),
    {
        self.commit(observation, Notice::Reanchored)
    }

    pub fn clear(&self, observation: Observation<'_>) -> (result: Result<GateView, GateView>)
        requires
            observation.of() == self,
            observation.seen().says().epoch + 1 < EPOCH_LIMIT,
        ensures
            self.commits(observation.seen(), Notice::Cleared, result),
    {
        self.commit(observation, Notice::Cleared)
    }

    /// A clear was tried: it needs an observation, a version to take, and a commit.
    pub open spec fn is_cleared(&self, done: bool) -> bool {
        exists|seen: Option<GateView>| #[trigger]
            self.observes(seen) && match seen {
                Some(view) => if committed_says(view.says(), Notice::Cleared) is None {
                    !done
                } else {
                    exists|result: Result<GateView, GateView>| #[trigger]
                        self.commits(view, Notice::Cleared, result) && done == result is Ok
                },
                None => !done,
            }
    }

    /// Observe and clear. `false` where a callback or another observer is in the way.
    pub(crate) fn try_clear(&self) -> (done: bool)
        ensures
            self.is_cleared(done),
    {
        let observation = self.observe();
        let ghost seen = seen_in(observation);
        assert(self.observes(seen));
        match observation {
            Some(observation) => if observation.can_commit() {
                let ghost view = observation.seen();
                let result = self.clear(observation);
                assert(self.commits(view, Notice::Cleared, result));
                result.is_ok()
            } else {
                false
            },
            None => false,
        }
    }

    /// Make a decision final that rests on an observation: by a new version where it
    /// puts what is prepared out of order, else by validating the observation. The
    /// answer is what stands then. `None` where something happened in between.
    pub fn conclude(&self, observation: Observation<'_>, replaces: bool) -> (stands: Option<
        GateView,
    >)
        requires
            observation.of() == self,
        ensures
            self.is_concluded(observation.seen(), replaces, stands),
    {
        self.finish(observation, replaces)
    }

    fn finish(&self, observation: Observation<'_>, replaces: bool) -> (stands: Option<GateView>)
        requires
            observation.of() == self,
        ensures
            self.concludes(observation.seen(), replaces, stands),
    {
        if replaces {
            if observation.can_commit() {
                let ghost seen = observation.seen();
                let result = self.replace(observation);
                assert(self.commits(seen, Notice::Replaced, result));
                result.ok()
            } else {
                None
            }
        } else if self.validate(&observation) {
            Some(observation.view())
        } else {
            None
        }
    }

    fn commit(&self, observation: Observation<'_>, notice: Notice) -> (result: Result<
        GateView,
        GateView,
    >)
        requires
            observation.of() == self,
            observation.seen().says().epoch + 1 < EPOCH_LIMIT,
        ensures
            self.commits(observation.seen(), notice, result),
    {
        match committed_control(observation.view.word, notice) {
            Some(next) => {
                if self.attempt(observation.view.word, next) {
                    Ok(GateView { word: next, current: observation.view.current })
                } else {
                    Err(self.view())
                }
            },
            None => Err(self.view()),
        }
    }

    /// One attempt to move the control word.
    pub(crate) fn attempt(&self, from: u64, to: u64) -> (done: bool)
        ensures
            self.moves(from, to, done),
    {
        let result = self.control.compare_exchange(
            from,
            to,
            Ordering::AcqRel,
            Ordering::Acquire,
        );
        assert(swapped(self.control, from, to, result));
        result.is_ok()
    }

    /// Move the control word as `step` says, until that succeeds or `step` does not.
    pub(crate) fn change<F: Fn(u64) -> Option<u64>>(&self, step: F) -> (result: Result<u64, u64>)
        requires
            forall|found: u64| call_requires(step, (found,)),
        ensures
            match result {
                Ok(found) => exists|next: u64| call_ensures(step, (found,), Some(next)),
                Err(found) => call_ensures(step, (found,), None),
            },
            self.steps(step, result),
    {
        update(&self.control, step)
    }

    fn finish_current(&self)
        ensures
            self.releases_current(),
    {
        self.publish_current(0);
        let _ = self.control.fetch_and(FINISH_MASK, Ordering::AcqRel);
    }

    /// Arm a start at `boundary`. The owner serializes this with clears; `Err`
    /// asks it to try again.
    pub fn try_arm(&self, boundary: i64) -> (result: Result<ScheduledArmOutcome, ()>)
        ensures
            result != Ok::<ScheduledArmOutcome, ()>(ScheduledArmOutcome::StaleScope),
            self.arms(boundary, result),
    {
        let view = self.view();
        let old: i64 = self.boundary.load(Ordering::Relaxed);
        let result = match arm_step(view.word, old) {
            ArmStep::Done(outcome) => Ok(outcome),
            ArmStep::Busy => Err(()),
            ArmStep::Attempt(next) => {
                self.boundary.store(boundary, Ordering::Relaxed);
                let swap = self.control.compare_exchange(
                    view.word,
                    next,
                    Ordering::Release,
                    Ordering::Acquire,
                );
                proof {
                    assert(swapped(self.control, view.word, next, swap));
                    assert(self.moves(view.word, next, swap is Ok));
                }
                let answer = if swap.is_ok() {
                    Ok(ScheduledArmOutcome::Armed)
                } else {
                    Err(())
                };
                assert(self.moves(view.word, next, answer is Ok));
                answer
            },
        };
        assert(self.shows(view) && self.reads_boundary(old) && arm_answers(
            view.says(),
            old,
            result,
        ));
        result
    }

    /// The start phase, read under the serialization that arm and clear use.
    pub fn start_state(&self) -> (phase: StartState)
        ensures
            self.is_in_phase(phase),
    {
        let view = self.view();
        let boundary: i64 = self.boundary.load(Ordering::Relaxed);
        assert(self.shows(view) && self.reads_boundary(boundary));
        start_phase(view.word, boundary)
    }

    /// Close admission, together with the callback that is active at that moment.
    pub fn close(&self)
        ensures
            exists|found: u64| #[trigger]
                self.steps(closed_always, Ok::<u64, u64>(found)),
    {
        let result = update(&self.control, closed_always);
        assert(self.steps(closed_always, result));
    }

    /// Whether the callback that was active at the close may still consume.
    pub fn terminal_consumption_pending(&self) -> (pending: bool)
        ensures
            exists|word: u64| #[trigger] self.reads(word) && pending == control(word).pending,
    {
        let word: u64 = self.control.load(Ordering::Acquire);
        assert(self.reads(word));
        is_pending(word)
    }

    /// Cancel a start that has not been won, and close. `Err` is the boundary of
    /// the start that was won.
    pub fn cancel_before_start(&self) -> (result: Result<(), i64>)
        ensures
            exists|moved: Result<u64, u64>| #[trigger]
                self.steps(cancelled_control, moved) && result is Ok == moved is Ok,
            result matches Err(boundary) ==> self.reads_boundary(boundary),
    {
        let result = update(&self.control, cancelled_control);
        assert(self.steps(cancelled_control, result));
        match result {
            Ok(_) => Ok(()),
            Err(_) => Err(self.boundary.load(Ordering::Relaxed)),
        }
    }
}

/// The time in which a callback is active. It ends with the guard, in one atomic
/// operation.
#[derive(Debug)]
pub struct CallbackGuard<'a> {
    gate: &'a ControlGate,
}

impl<'a> CallbackGuard<'a> {
    /// The control gate that the callback entered.
    pub closed spec fn of(&self) -> &ControlGate {
        self.gate
    }

    pub fn view(&self) -> (view: GateView)
        ensures
            self.of().shows(view),
    {
        self.gate.view()
    }

    /// What the control gate shows, once the callback has done something to it.
    pub fn view_again(&self) -> (view: GateView)
        ensures
            self.of().shows_again(view),
    {
        self.gate.view_again()
    }

    /// Make `source` the current one, if it was published for the present
    /// version and nothing is current.
    pub fn claim(&self, epoch: u64, source: u64) -> (claimed: bool)
        requires
            source != 0,
        ensures
            claimed ==> epoch < EPOCH_LIMIT,
            self.of().claims(epoch, source, claimed),
    {
        self.gate.claim(epoch, source)
    }

    pub fn publish_current(&self, source: u64)
        ensures
            self.of().makes_current(source),
    {
        self.gate.publish_current(source);
    }

    /// Release the current source, and with it both notices.
    pub fn finish_current(&self)
        ensures
            self.of().releases_current(),
    {
        self.gate.finish_current();
    }

    pub fn acknowledge_reanchor(&self)
        ensures
            self.of().acknowledges(),
    {
        let _ = self.gate.control.fetch_and(ACKNOWLEDGE_MASK, Ordering::AcqRel);
    }

    /// Whether output may start. An active callback keeps arm, clear and reanchor
    /// from changing the boundary; only a close or a cancel defeats its attempt.
    pub fn decide_start(&self, presentation: Option<i64>) -> (outcome: ScheduledStartOutcome)
        ensures
            outcome != ScheduledStartOutcome::StaleScope,
            outcome matches ScheduledStartOutcome::Waiting { start_at_zone_us } ==> !reached(
                presentation,
                start_at_zone_us,
            ),
            outcome matches ScheduledStartOutcome::BoundaryWon { start_at_zone_us } ==> reached(
                presentation,
                start_at_zone_us,
            ),
            self.of().starts(presentation, outcome),
    {
        let view = self.view();
        let boundary: i64 = self.gate.boundary.load(Ordering::Relaxed);
        let outcome = match start_step(view.word, boundary, presentation) {
            StartStep::Done(outcome) => outcome,
            StartStep::Attempt(next) => {
                let answer = if self.gate.attempt(view.word, next) {
                    ScheduledStartOutcome::BoundaryWon { start_at_zone_us: boundary }
                } else {
                    ScheduledStartOutcome::Closed
                };
                assert(self.gate.moves(view.word, next, answer is BoundaryWon));
                answer
            },
        };
        assert(self.gate.shows(view) && self.gate.reads_boundary(boundary) && start_answers(
            view.says(),
            boundary,
            presentation,
            outcome,
        ));
        outcome
    }
}

impl<'a> Drop for CallbackGuard<'a> {
    fn drop(&mut self)
        opens_invariants none
        no_unwind
    {
        self.gate.end_callback();
    }
}

} // verus!
