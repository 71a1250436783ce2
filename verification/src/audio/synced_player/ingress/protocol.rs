//! A model of the control gate, and laws of the model under every interleaving of its
//! users.
//!
//! A run is a sequence of atomic steps on one memory. Each step is the one effective memory
//! operation of a gate method, with the condition under which that method gets
//! to it; the words it leads to are the ones that the methods compute, and the methods'
//! contracts say which operation they make. The laws at the end put the two together: what a
//! method's contract says of a success is a step of the model. That the atomic cells are such
//! a memory, whose operations come one after the other, is not proved: it is what the model
//! takes for granted. `C` is whatever else the device writes while its callback is active.
use super::control::{
    acknowledged, arm_answers, cancelled_control, cancelled_says, closed_says, committed_says,
    control, entered, finished, left, masks_say, phase_says, reached, start_answers, Control,
    Notice,
};
use super::{closed_always, ControlGate, GateView};
use crate::audio::{ScheduledArmOutcome, ScheduledStartOutcome, StartState};
use vstd::prelude::*;

verus! {

/// The observation lease.
pub enum Lease {
    /// Nobody observes.
    Free,
    /// Taken, and nothing observed yet.
    Taken,
    /// Held with an observation.
    Held,
}

/// The memory that the users of a gate share.
pub struct Shared<C> {
    pub control: u64,
    pub current: u64,
    pub boundary: i64,
    pub lease: Lease,
    pub cells: C,
}

impl<C> Shared<C> {
    pub open spec fn says(self) -> Control {
        control(self.control)
    }

    pub open spec fn phase(self) -> StartState {
        phase_says(self.says(), self.boundary)
    }
}

/// One effective operation on the shared memory.
pub enum Step<C> {
    /// The device enters a callback.
    Enter,
    /// The device publishes, within its callback.
    Publish { current: u64, cells: C },
    /// The device claims a source that was published for `epoch`.
    Claim { epoch: u64, source: u64 },
    /// The device releases its source.
    Finish,
    /// The device acknowledges a new timeline.
    Acknowledge,
    /// The device wins the start.
    Win { presentation: Option<i64> },
    /// The device leaves its callback.
    Leave,
    /// Somebody takes the lease.
    Lease,
    /// The holder of the lease observes.
    Observe,
    /// The observation of `word` commits.
    Commit { word: u64, notice: Notice },
    /// The lease ends.
    Release,
    /// The owner stores a boundary that nobody is armed for.
    Store { boundary: i64 },
    /// The owner arms.
    Arm,
    /// The owner closes admission.
    Close,
    /// The owner cancels a start that is not won.
    Cancel,
}

pub open spec fn steps_to<C>(s: Shared<C>, step: Step<C>, t: Shared<C>) -> bool {
    match step {
        Step::Enter => !s.says().active && t == (Shared { control: entered(s.control), ..s }),
        Step::Publish { current, cells } => s.says().active && t == (Shared { current, cells, ..s }),
        Step::Claim { epoch, source } => s.says().active && s.says().epoch == epoch && s.current
            == 0 && source != 0 && t.says() == (Control { revoked: false, dirty: true, ..s.says() })
            && t == (Shared { control: t.control, current: source, ..s }),
        Step::Finish => s.says().active && t == (Shared {
            control: finished(s.control),
            current: 0,
            ..s
        }),
        Step::Acknowledge => s.says().active && t == (Shared {
            control: acknowledged(s.control),
            ..s
        }),
        Step::Win { presentation } => s.says().active && !s.says().closed && !s.says().won
            && s.says().armed && reached(presentation, s.boundary) && t.says() == (Control {
            armed: false,
            won: true,
            ..s.says()
        }) && t == (Shared { control: t.control, ..s }),
        Step::Leave => s.says().active && t == (Shared { control: left(s.control), ..s }),
        Step::Lease => s.lease is Free && t == (Shared { lease: Lease::Taken, ..s }),
        Step::Observe => s.lease is Taken && !s.says().active && t.says() == (Control {
            dirty: false,
            ..s.says()
        }) && t == (Shared { control: t.control, lease: Lease::Held, ..s }),
        Step::Commit { word, notice } => s.lease is Held && s.control == word && committed_says(
            control(word),
            notice,
        ) == Some(t.says()) && t == (Shared { control: t.control, ..s }),
        Step::Release => t == (Shared { lease: Lease::Free, ..s }),
        Step::Store { boundary } => !s.says().armed && !s.says().won && t == (Shared {
            boundary,
            ..s
        }),
        Step::Arm => !s.says().closed && !s.says().active && !s.says().won && !s.says().armed
            && t.says() == (Control { armed: true, ..s.says() }) && t == (Shared {
            control: t.control,
            ..s
        }),
        Step::Close => t.says() == closed_says(s.says()) && t == (Shared {
            control: t.control,
            ..s
        }),
        Step::Cancel => cancelled_says(s.says()) == Some(t.says()) && t == (Shared {
            control: t.control,
            ..s
        }),
    }
}

/// A run visits `states` by `steps`.
pub open spec fn runs<C>(states: Seq<Shared<C>>, steps: Seq<Step<C>>) -> bool {
    &&& states.len() == steps.len() + 1
    &&& forall|i: int|
        0 <= i < steps.len() ==> #[trigger] steps_to(states[i], steps[i], states[i + 1])
}

/// What a single step does to the control word, whatever it is.
proof fn lemma_step<C>(s: Shared<C>, step: Step<C>, t: Shared<C>)
    requires
        steps_to(s, step, t),
    ensures
        t.says().epoch == s.says().epoch || (step is Commit && t.says().epoch == s.says().epoch
            + 1),
        step is Commit ==> t.says().epoch == s.says().epoch + 1,
        s.says().dirty ==> t.says().dirty || step is Observe,
        step is Enter ==> t.says().dirty && t.says().active,
        t.says().active ==> s.says().active || step is Enter,
        !(s.says().active || step is Enter) ==> t.current == s.current && t.cells == s.cells,
        s.says().won ==> t.says().won,
        t.says().won ==> s.says().won || step is Win,
        s.says().closed ==> t.says().closed,
        s.says().closed && !s.says().won && !s.says().armed ==> !t.says().won && !t.says().armed,
        s.says().armed || s.says().won ==> t.boundary == s.boundary,
        t.says().pending ==> s.says().pending || (!s.says().closed && s.says().active
            && t.says().closed),
        s.says().pending && !t.says().pending ==> step is Leave,
{
    masks_say(s.control);
}

/// Facts that one step keeps, carried along a run.
proof fn lemma_run<C>(states: Seq<Shared<C>>, steps: Seq<Step<C>>, from: int, to: int)
    requires
        runs(states, steps),
        0 <= from <= to < states.len(),
    ensures
        states[from].says().epoch <= states[to].says().epoch,
        states[from].says().won ==> states[to].says().won,
        states[from].says().closed ==> states[to].says().closed,
        states[from].says().closed && !states[from].says().won && !states[from].says().armed
            ==> !states[to].says().won && !states[to].says().armed,
        states[from].says().won ==> states[to].boundary == states[from].boundary,
        states[from].says().closed && !states[from].says().pending ==> !states[to].says().pending,
    decreases to - from,
{
    if from < to {
        lemma_run(states, steps, from, to - 1);
        let last = to - 1;
        assert(steps_to(states[last], steps[last], states[last + 1]));
        lemma_step(states[last], steps[last], states[to]);
    }
}

/// While an observation is held, a callback that enters leaves a trace that
/// nothing wipes.
proof fn lemma_held<C>(states: Seq<Shared<C>>, steps: Seq<Step<C>>, to: int)
    requires
        runs(states, steps),
        0 <= to < states.len(),
        states[0].lease is Held,
        !states[0].says().active,
        forall|i: int| 0 <= i < to ==> !(#[trigger] steps[i] is Release),
    ensures
        states[to].lease is Held,
        states[to].says().dirty || (!states[to].says().active && states[to].current
            == states[0].current && states[to].cells == states[0].cells && forall|i: int|
            0 <= i < to ==> !(#[trigger] steps[i] is Enter)),
    decreases to,
{
    if to > 0 {
        lemma_held(states, steps, to - 1);
        let last = to - 1;
        assert(steps_to(states[last], steps[last], states[last + 1]));
        lemma_step(states[last], steps[last], states[to]);
        masks_say(states[to - 1].control);
    }
}

/// While an observation is held, the trace of a callback stays.
proof fn lemma_dirty_stays<C>(states: Seq<Shared<C>>, steps: Seq<Step<C>>, from: int, to: int)
    requires
        runs(states, steps),
        0 <= from <= to < states.len(),
        states[0].lease is Held,
        !states[0].says().active,
        states[from].says().dirty,
        forall|i: int| 0 <= i < to ==> !(#[trigger] steps[i] is Release),
    ensures
        states[to].says().dirty,
    decreases to - from,
{
    if from < to {
        lemma_dirty_stays(states, steps, from, to - 1);
        lemma_held(states, steps, to - 1);
        let last = to - 1;
        assert(steps_to(states[last], steps[last], states[last + 1]));
        lemma_step(states[last], steps[last], states[to]);
    }
}

/// An observation taken before a callback is dead once the callback has entered,
/// however much else happens: while the observation is held, the control gate never
/// again shows the word that was observed, so it neither validates nor commits.
/// A callback that has come and gone in full makes no difference.
pub proof fn observation_dies_with_the_next_callback<C>(
    states: Seq<Shared<C>>,
    steps: Seq<Step<C>>,
    enter: int,
)
    requires
        runs(states, steps),
        states[0].lease is Held,
        !states[0].says().active,
        !states[0].says().dirty,
        forall|i: int| 0 <= i < steps.len() ==> !(#[trigger] steps[i] is Release),
        0 <= enter < steps.len(),
        steps[enter] is Enter,
    ensures
        states.last().control != states[0].control,
{
    assert(steps_to(states[enter], steps[enter], states[enter + 1]));
    lemma_step(states[enter], steps[enter], states[enter + 1]);
    lemma_dirty_stays(states, steps, enter + 1, states.len() - 1);
}

/// A validated observation is coherent: if the control gate shows the observed word once
/// more while the observation is held, then the device wrote nothing in between,
/// so whatever was read of its cells at any of those moments belongs together.
pub proof fn validated_observation_is_coherent<C>(
    states: Seq<Shared<C>>,
    steps: Seq<Step<C>>,
    read: int,
)
    requires
        runs(states, steps),
        states[0].lease is Held,
        !states[0].says().active,
        !states[0].says().dirty,
        forall|i: int| 0 <= i < steps.len() ==> !(#[trigger] steps[i] is Release),
        states.last().control == states[0].control,
        0 <= read < states.len(),
    ensures
        states[read].current == states[0].current,
        states[read].cells == states[0].cells,
        !states[read].says().active,
{
    lemma_held(states, steps, read);
    if states[read].says().dirty {
        lemma_dirty_stays(states, steps, read, states.len() - 1);
    }
}

/// A read gives back what was last published: at every moment after a publication
/// and before the next one, the device's cells hold it. With a validated
/// observation, what was read is therefore one whole publication.
pub proof fn reads_find_the_last_publication<C>(
    states: Seq<Shared<C>>,
    steps: Seq<Step<C>>,
    publish: int,
    read: int,
)
    requires
        runs(states, steps),
        0 <= publish < read < states.len(),
        steps[publish] is Publish,
        forall|i: int| publish < i < read ==> !(#[trigger] steps[i] is Publish),
    ensures
        steps[publish] matches Step::Publish { cells, .. } && states[read].cells == cells,
    decreases read - publish,
{
    let last = read - 1;
    assert(steps_to(states[last], steps[last], states[last + 1]));
    if publish < last {
        reads_find_the_last_publication(states, steps, publish, last);
    }
}

/// Versions only grow, and every commit takes a version that the scope has not
/// had before.
pub proof fn versions_are_never_reused<C>(
    states: Seq<Shared<C>>,
    steps: Seq<Step<C>>,
    commit: int,
)
    requires
        runs(states, steps),
        0 <= commit < steps.len(),
        steps[commit] is Commit,
    ensures
        states[commit + 1].says().epoch == states[commit].says().epoch + 1,
        forall|i: int|
            0 <= i <= commit ==> (#[trigger] states[i]).says().epoch < states[commit
                + 1].says().epoch,
        forall|i: int|
            commit < i < states.len() ==> (#[trigger] states[i]).says().epoch >= states[commit
                + 1].says().epoch,
{
    assert(steps_to(states[commit], steps[commit], states[commit + 1]));
    lemma_step(states[commit], steps[commit], states[commit + 1]);
    assert forall|i: int| 0 <= i <= commit implies (#[trigger] states[i]).says().epoch
        < states[commit + 1].says().epoch by {
        lemma_run(states, steps, i, commit);
    }
    assert forall|i: int| commit < i < states.len() implies (#[trigger] states[i]).says().epoch
        >= states[commit + 1].says().epoch by {
        lemma_run(states, steps, commit + 1, i);
    }
}

/// An observation that ends is given back, whatever came of it: nothing else changes, the
/// next one can be begun, and it observes as long as no callback is active. So a read that
/// fails stands in nobody's way.
pub proof fn an_observation_that_ends_is_given_back<C>(
    s: Shared<C>,
    t: Shared<C>,
    u: Shared<C>,
)
    requires
        steps_to(s, Step::Release, t),
        steps_to(t, Step::Lease, u),
    ensures
        t.lease is Free,
        t == (Shared { lease: Lease::Free, ..s }),
        u.lease is Taken,
        u.says() == s.says() && u.current == s.current && u.cells == s.cells,
        steps_to(t, Step::Lease, Shared { lease: Lease::Taken, ..t }),
        !s.says().active && !s.says().dirty ==> steps_to(
            u,
            Step::Observe,
            Shared { lease: Lease::Held, ..u },
        ),
{
}

/// A start is won once, for the boundary it was armed for: afterwards the phase
/// and its boundary stay, through clears, closes and later requests to arm.
pub proof fn a_won_start_stays_won<C>(states: Seq<Shared<C>>, steps: Seq<Step<C>>, win: int)
    requires
        runs(states, steps),
        0 <= win < steps.len(),
        steps[win] is Win,
    ensures
        states[win].phase() == (StartState::Armed { start_at_zone_us: states[win].boundary }),
        forall|i: int|
            win < i < states.len() ==> (#[trigger] states[i]).phase() == (StartState::BoundaryWon {
                start_at_zone_us: states[win].boundary,
            }),
        forall|i: int| win < i < steps.len() ==> !(#[trigger] steps[i] is Win),
{
    assert(steps_to(states[win], steps[win], states[win + 1]));
    assert forall|i: int| win < i < states.len() implies (#[trigger] states[i]).phase() == (
    StartState::BoundaryWon { start_at_zone_us: states[win].boundary }) by {
        lemma_run(states, steps, win + 1, i);
    }
    assert forall|i: int| win < i < steps.len() implies !(#[trigger] steps[i] is Win) by {
        assert(steps_to(states[i], steps[i], states[i + 1]));
        lemma_run(states, steps, win + 1, i);
    }
}

/// Cancellation and the boundary have one winner: a run with a cancel holds no
/// win, before it or after it.
pub proof fn cancel_and_boundary_have_one_winner<C>(
    states: Seq<Shared<C>>,
    steps: Seq<Step<C>>,
    cancel: int,
    win: int,
)
    requires
        runs(states, steps),
        0 <= cancel < steps.len(),
        steps[cancel] is Cancel,
        0 <= win < steps.len(),
    ensures
        !(steps[win] is Win),
{
    assert(steps_to(states[cancel], steps[cancel], states[cancel + 1]));
    assert(steps_to(states[win], steps[win], states[win + 1]));
    if steps[win] is Win {
        if win < cancel {
            lemma_run(states, steps, win + 1, cancel);
        } else {
            lemma_run(states, steps, cancel + 1, win);
        }
    }
}

/// After the first close, by a close or a successful cancel, exactly the callback that was
/// active at that moment is waited for, until it leaves. If none was active, none ever is.
pub proof fn the_callback_at_the_close_is_waited_for<C>(
    states: Seq<Shared<C>>,
    steps: Seq<Step<C>>,
    close: int,
    later: int,
)
    requires
        runs(states, steps),
        0 <= close < later < states.len(),
        steps[close] is Close || steps[close] is Cancel,
        !states[close].says().closed,
        !states[close].says().pending,
    ensures
        states[later].says().closed,
        states[later].says().pending <==> states[close].says().active && forall|i: int|
            close < i < later ==> !(#[trigger] steps[i] is Leave),
    decreases later - close,
{
    let last = later - 1;
    assert(steps_to(states[last], steps[last], states[last + 1]));
    masks_say(states[last].control);
    if close < last {
        the_callback_at_the_close_is_waited_for(states, steps, close, last);
        lemma_step(states[last], steps[last], states[later]);
        assert(steps[last] is Leave ==> !states[later].says().pending);
    }
}

/// Closing admission does not change the phase that callers see; clearing drops
/// a start that is armed and keeps one that is won.
pub proof fn close_keeps_the_phase<C>(s: Shared<C>, step: Step<C>, t: Shared<C>)
    requires
        steps_to(s, step, t),
    ensures
        step is Close ==> t.phase() == s.phase(),
        step matches Step::Commit { notice, .. } ==> t.phase() == if notice == Notice::Cleared
            && !s.says().won {
            StartState::Idle
        } else {
            s.phase()
        },
{
}

/// A callback that enters is a step of the model: on a memory that holds the word which it
/// found.
pub proof fn an_entry_is_a_step<C>(gate: ControlGate, previous: u64, s: Shared<C>)
    requires
        gate.is_entered(previous),
        !control(previous).active,
        s.control == previous,
    ensures
        steps_to(s, Step::Enter, Shared { control: entered(previous), ..s }),
{
}

/// An observation that succeeds is a step of the model, for whoever has taken the lease: it
/// moved the word that it names, and shows the word that it left.
pub proof fn an_observation_is_a_step<C>(gate: ControlGate, view: GateView) -> (before: u64)
    requires
        gate.observes(Some(view)),
    ensures
        gate.moves(before, view.word, true),
        forall|s: Shared<C>|
            s.control == before && s.lease is Taken ==> #[trigger] steps_to(
                s,
                Step::Observe,
                Shared { control: view.word, lease: Lease::Held, ..s },
            ),
{
    choose|before: u64| #[trigger] gate.reads(before) && gate.observes_word(before, Some(view))
}

/// A commit that succeeds is a step of the model, for whoever holds the observation.
pub proof fn a_commit_is_a_step<C>(
    gate: ControlGate,
    seen: GateView,
    notice: Notice,
    v: GateView,
    s: Shared<C>,
)
    requires
        gate.commits(seen, notice, Ok::<GateView, GateView>(v)),
        s.control == seen.word,
        s.lease is Held,
    ensures
        gate.moves(seen.word, v.word, true),
        steps_to(s, Step::Commit { word: seen.word, notice }, Shared { control: v.word, ..s }),
{
}

/// A claim that succeeds is a step of the model, for the callback that is active.
pub proof fn a_claim_is_a_step<C>(gate: ControlGate, epoch: u64, source: u64) -> (words: (u64, u64))
    requires
        source != 0,
        gate.claims(epoch, source, true),
    ensures
        gate.moves(words.0, words.1, true),
        gate.makes_current(source),
        forall|s: Shared<C>|
            s.control == words.0 && s.current == 0 && s.says().active ==> #[trigger] steps_to(
                s,
                Step::Claim { epoch, source },
                Shared { control: words.1, current: source, ..s },
            ),
{
    let empty = choose|empty: GateView| #[trigger]
        gate.shows(empty) && if empty.says().epoch == epoch && empty.current == 0 {
            &&& exists|next: u64| #[trigger]
                gate.moves(empty.word, next, true) && control(next) == (Control {
                    revoked: false,
                    dirty: true,
                    ..empty.says()
                })
            &&& gate.makes_current(source)
        } else {
            false
        };
    let next = choose|next: u64| #[trigger]
        gate.moves(empty.word, next, true) && control(next) == (Control {
            revoked: false,
            dirty: true,
            ..empty.says()
        });
    (empty.word, next)
}

/// A start that is won is a step of the model, for the callback that is active and the
/// boundary that was read.
pub proof fn a_win_is_a_step<C>(
    gate: ControlGate,
    presentation: Option<i64>,
    start_at_zone_us: i64,
) -> (words: (u64, u64))
    requires
        gate.starts(presentation, ScheduledStartOutcome::BoundaryWon { start_at_zone_us }),
    ensures
        gate.moves(words.0, words.1, true),
        gate.reads_boundary(start_at_zone_us),
        forall|s: Shared<C>|
            s.control == words.0 && s.boundary == start_at_zone_us && s.says().active
                ==> #[trigger] steps_to(
                s,
                Step::Win { presentation },
                Shared { control: words.1, ..s },
            ),
{
    let outcome = ScheduledStartOutcome::BoundaryWon { start_at_zone_us };
    let (found, stored) = choose|found: GateView, stored: i64|
        {
            let before = found.says();
            &&& #[trigger] gate.shows(found)
            &&& #[trigger] gate.reads_boundary(stored)
            &&& start_answers(before, stored, presentation, outcome)
            &&& !before.closed && !before.won && before.armed && reached(presentation, stored)
                ==> exists|next: u64| #[trigger]
                gate.moves(found.word, next, outcome is BoundaryWon) && control(next) == (
                Control { armed: false, won: true, ..before })
        };
    let next = choose|next: u64| #[trigger]
        gate.moves(found.word, next, outcome is BoundaryWon) && control(next) == (Control {
            armed: false,
            won: true,
            ..found.says()
        });
    (found.word, next)
}

/// A start that is armed is two steps of the model: its boundary is stored, and then its word
/// moved, if no callback is active.
pub proof fn an_arm_is_two_steps<C>(gate: ControlGate, boundary: i64) -> (words: (u64, u64))
    requires
        gate.arms(boundary, Ok::<ScheduledArmOutcome, ()>(ScheduledArmOutcome::Armed)),
    ensures
        gate.stores_boundary(boundary),
        gate.moves(words.0, words.1, true),
        forall|s: Shared<C>|
            s.control == words.0 ==> #[trigger] steps_to(
                s,
                Step::Store { boundary },
                Shared { boundary, ..s },
            ),
        forall|s: Shared<C>|
            s.control == words.0 ==> #[trigger] steps_to(
                s,
                Step::Arm,
                Shared { control: words.1, ..s },
            ),
{
    let result = Ok::<ScheduledArmOutcome, ()>(ScheduledArmOutcome::Armed);
    let (found, stored) = choose|found: GateView, stored: i64|
        {
            let before = found.says();
            &&& #[trigger] gate.shows(found)
            &&& #[trigger] gate.reads_boundary(stored)
            &&& arm_answers(before, stored, result)
            &&& !before.closed && !before.active && !before.won && !before.armed ==> {
                &&& gate.stores_boundary(boundary)
                &&& exists|next: u64| #[trigger]
                    gate.moves(found.word, next, result is Ok) && control(next) == (Control {
                        armed: true,
                        ..before
                    })
            }
        };
    let next = choose|next: u64| #[trigger]
        gate.moves(found.word, next, result is Ok) && control(next) == (Control {
            armed: true,
            ..found.says()
        });
    (found.word, next)
}

/// A close is a step of the model, on a memory that holds the word which it replaced.
pub proof fn a_close_is_a_step<C>(gate: ControlGate, found: u64) -> (next: u64)
    requires
        gate.steps(closed_always, Ok::<u64, u64>(found)),
    ensures
        forall|s: Shared<C>|
            s.control == found ==> #[trigger] steps_to(
                s,
                Step::Close,
                Shared { control: next, ..s },
            ),
{
    gate.lemma_stepped(closed_always, found);
    choose|next: u64| call_ensures(closed_always, (found,), Some(next))
}

/// A cancel that succeeds is a step of the model, on a memory that holds the word which it
/// replaced.
pub proof fn a_cancel_is_a_step<C>(gate: ControlGate, found: u64) -> (next: u64)
    requires
        gate.steps(cancelled_control, Ok::<u64, u64>(found)),
    ensures
        forall|s: Shared<C>|
            s.control == found ==> #[trigger] steps_to(
                s,
                Step::Cancel,
                Shared { control: next, ..s },
            ),
{
    gate.lemma_stepped(cancelled_control, found);
    choose|next: u64| call_ensures(cancelled_control, (found,), Some(next))
}

} // verus!
