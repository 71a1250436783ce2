//! Correction plans: measured on one side, followed on the other.
//!
//! The clock model and the error filter live outside. What they say of an
//! observation is handed in; what has to be forgotten is counted here, so that
//! the filter can follow.
use crate::audio::sync_correction::{correcting, steady, CorrectionSchedule};
use crate::audio::synced_player::revision::{
    is_published, next_revisions, revisions_after, stands,
};
use crate::audio::synced_player::shared::{
    began_reading, began_writing, ended_reading, ended_writing, got_i64, got_u64, got_u8, made_u64,
    put_i64, put_u64, put_u8,
};
use crate::sync::raw_clock::{instant_ns, lemma_whole_micros, micros_at, told};
use std::sync::atomic::{AtomicI64, AtomicU64, AtomicU8, Ordering};
use std::time::Instant;
use vstd::prelude::*;

verus! {

/// A plan that a mailbox can carry: a cadence that only drops or only repeats, or
/// no plan at all. A reanchor is a request to the source, not a plan.
pub open spec fn carried(plan: Option<CorrectionSchedule>) -> bool {
    plan matches Some(schedule) ==> !schedule.reanchor && (schedule.insert_every_n_frames == 0
        || schedule.drop_every_n_frames == 0)
}

pub fn is_carried(plan: Option<CorrectionSchedule>) -> (fits: bool)
    ensures
        fits == carried(plan),
{
    match plan {
        Some(schedule) => !schedule.reanchor && (schedule.insert_every_n_frames == 0
            || schedule.drop_every_n_frames == 0),
        None => true,
    }
}

pub const NO_PLAN: u64 = 0x4000_0000_0000_0000;

pub const INSERTS: u64 = 0x1_0000_0000;

/// The word of a plan: the interval, and whether it repeats.
pub open spec fn plan_word(plan: Option<CorrectionSchedule>) -> u64 {
    match plan {
        None => NO_PLAN,
        Some(schedule) => if schedule.insert_every_n_frames != 0 {
            (schedule.insert_every_n_frames as u64) | INSERTS
        } else {
            schedule.drop_every_n_frames as u64
        },
    }
}

pub fn encode_plan(plan: Option<CorrectionSchedule>) -> (word: u64)
    requires
        carried(plan),
    ensures
        word == plan_word(plan),
{
    match plan {
        None => NO_PLAN,
        Some(schedule) => if schedule.insert_every_n_frames != 0 {
            (schedule.insert_every_n_frames as u64) | INSERTS
        } else {
            schedule.drop_every_n_frames as u64
        },
    }
}

/// The plan of a word.
pub open spec fn word_plan(word: u64) -> Option<CorrectionSchedule> {
    if word & NO_PLAN != 0 {
        None
    } else if word & INSERTS != 0 {
        Some(CorrectionSchedule { insert_every_n_frames: word as u32, ..steady() })
    } else {
        Some(CorrectionSchedule { drop_every_n_frames: word as u32, ..steady() })
    }
}

pub fn decode_plan(word: u64) -> (plan: Option<CorrectionSchedule>)
    ensures
        plan == word_plan(word),
        carried(plan),
{
    if word & NO_PLAN != 0 {
        None
    } else if word & INSERTS != 0 {
        Some(
            CorrectionSchedule {
                insert_every_n_frames: word as u32,
                drop_every_n_frames: 0,
                reanchor: false,
            },
        )
    } else {
        Some(
            CorrectionSchedule {
                insert_every_n_frames: 0,
                drop_every_n_frames: word as u32,
                reanchor: false,
            },
        )
    }
}

/// What a read gives back is what was published, for every plan that can be
/// carried.
pub proof fn a_plan_comes_back(plan: Option<CorrectionSchedule>)
    requires
        carried(plan),
    ensures
        word_plan(plan_word(plan)) == plan,
{
    match plan {
        None => {
            assert(0x4000_0000_0000_0000u64 & 0x4000_0000_0000_0000u64 != 0) by (bit_vector);
        },
        Some(schedule) => {
            let interval = if schedule.insert_every_n_frames != 0 {
                schedule.insert_every_n_frames
            } else {
                schedule.drop_every_n_frames
            };
            assert((interval as u64) & 0x4000_0000_0000_0000u64 == 0 && (interval as u64)
                & 0x1_0000_0000u64 == 0 && ((interval as u64) as u32) == interval && ((
            interval as u64) | 0x1_0000_0000u64) & 0x4000_0000_0000_0000u64 == 0 && ((
            interval as u64) | 0x1_0000_0000u64) & 0x1_0000_0000u64 != 0 && (((interval as u64)
                | 0x1_0000_0000u64) as u32) == interval) by (bit_vector);
        },
    }
}

/// The plan of a payload, if it is for a timeline.
pub open spec fn payload_says(tag: u64, word: u64, timeline: u64) -> Option<
    Option<CorrectionSchedule>,
> {
    if tag == timeline {
        Some(word_plan(word))
    } else {
        None
    }
}

pub fn payload_plan(tag: u64, word: u64, timeline: u64) -> (plan: Option<
    Option<CorrectionSchedule>,
>)
    ensures
        plan == payload_says(tag, word, timeline),
        plan matches Some(p) ==> carried(p),
{
    if tag != timeline {
        None
    } else {
        Some(decode_plan(word))
    }
}

/// What is found of a publication in one try: its revision before and after, and its
/// payload.
#[derive(Clone, Copy, Debug, PartialEq, Eq, Structural)]
pub struct PlanWords {
    pub before: u64,
    pub tag: u64,
    pub word: u64,
    pub after: u64,
}

/// The plan that was found for a timeline: one was published for it, and no other
/// publication came in between.
pub open spec fn plan_found(found: PlanWords, timeline: u64) -> Option<
    Option<CorrectionSchedule>,
> {
    if stands(found.before) && found.after == found.before {
        payload_says(found.tag, found.word, timeline)
    } else {
        None
    }
}

pub fn find_plan(found: PlanWords, timeline: u64) -> (plan: Option<Option<CorrectionSchedule>>)
    ensures
        plan == plan_found(found, timeline),
        plan matches Some(p) ==> carried(p),
{
    if is_published(found.before) && found.after == found.before {
        payload_plan(found.tag, found.word, timeline)
    } else {
        None
    }
}

/// A plan and the timeline that it is for, in words.
#[derive(Debug)]
struct PlanPayload {
    timeline: AtomicU64,
    word: AtomicU64,
}

impl PlanPayload {
    /// A plan was stored, for a timeline.
    closed spec fn stores(&self, timeline: u64, plan: Option<CorrectionSchedule>) -> bool {
        &&& put_u64(self.timeline, timeline)
        &&& put_u64(self.word, plan_word(plan))
    }

    /// The timeline and the word were read.
    closed spec fn reads(&self, tag: u64, word: u64) -> bool {
        &&& got_u64(self.timeline, tag)
        &&& got_u64(self.word, word)
    }

    fn new() -> (payload: PlanPayload)
        ensures
            made_u64(payload.timeline, 0) && made_u64(payload.word, 0),
    {
        PlanPayload { timeline: AtomicU64::new(0), word: AtomicU64::new(0) }
    }

    fn store(&self, timeline: u64, plan: Option<CorrectionSchedule>)
        requires
            carried(plan),
        ensures
            self.stores(timeline, plan),
    {
        self.timeline.store(timeline, Ordering::Relaxed);
        self.word.store(encode_plan(plan), Ordering::Relaxed);
    }

    /// The timeline and the word. The caller checks the revision after that.
    fn load(&self) -> (found: (u64, u64))
        ensures
            self.reads(found.0, found.1),
    {
        let tag: u64 = self.timeline.load(Ordering::Relaxed);
        let word: u64 = self.word.load(Ordering::Relaxed);
        (tag, word)
    }
}

/// One plan at a time.
#[derive(Debug)]
pub struct PlanMailbox {
    revision: AtomicU64,
    payload: PlanPayload,
}

impl Default for PlanMailbox {
    fn default() -> (mailbox: PlanMailbox)
        ensures
            mailbox.is_fresh(),
    {
        PlanMailbox { revision: AtomicU64::new(0), payload: PlanPayload::new() }
    }
}

impl PlanMailbox {
    /// Nothing is published yet.
    pub closed spec fn is_fresh(&self) -> bool {
        made_u64(self.revision, 0)
    }

    pub closed spec fn reads_revision(&self, revision: u64) -> bool {
        got_u64(self.revision, revision)
    }

    /// The revision that stands while something is written was set.
    pub closed spec fn opens_revision(&self, writing: u64) -> bool {
        began_writing(self.revision, writing)
    }

    /// The revision that stands once something is written was set.
    pub closed spec fn closes_revision(&self, written: u64) -> bool {
        ended_writing(self.revision, written)
    }

    /// A plan was stored, for a timeline.
    pub closed spec fn stores(&self, timeline: u64, plan: Option<CorrectionSchedule>) -> bool {
        self.payload.stores(timeline, plan)
    }

    /// All of this was read.
    pub closed spec fn reads(&self, words: PlanWords) -> bool {
        &&& began_reading(self.revision, words.before)
        &&& self.payload.reads(words.tag, words.word)
        &&& ended_reading(self.revision, words.after)
    }

    /// A plan was to be published, and whether it was: it was stored between two revisions,
    /// unless those are used up.
    pub open spec fn publishes(
        &self,
        timeline: u64,
        plan: Option<CorrectionSchedule>,
        published: bool,
    ) -> bool {
        exists|revision: u64| #[trigger]
            self.reads_revision(revision) && match next_revisions(revision) {
                Some((writing, written)) => {
                    &&& published
                    &&& self.opens_revision(writing)
                    &&& self.stores(timeline, plan)
                    &&& self.closes_revision(written)
                },
                None => !published,
            }
    }

    /// Publish a plan. There is one writer. `false` where the revisions are used
    /// up; the last plan then stands.
    pub fn publish(&self, timeline: u64, plan: Option<CorrectionSchedule>) -> (published: bool)
        requires
            carried(plan),
        ensures
            self.publishes(timeline, plan, published),
    {
        let before: u64 = self.revision.load(Ordering::Relaxed);
        assert(self.reads_revision(before));
        let (writing, written): (u64, u64) = match revisions_after(before) {
            Some(next) => next,
            None => {
                return false;
            },
        };
        self.revision.store(writing, Ordering::Relaxed);
        std::sync::atomic::fence(Ordering::Release);
        self.payload.store(timeline, plan);
        self.revision.store(written, Ordering::Release);
        true
    }

    /// A plan was to be read for a timeline, and what was found.
    pub open spec fn gives(
        &self,
        timeline: u64,
        plan: Option<Option<CorrectionSchedule>>,
    ) -> bool {
        exists|words: PlanWords| #[trigger]
            self.reads(words) && plan == plan_found(words, timeline)
    }

    /// One try to read the plan for a timeline.
    pub fn read(&self, timeline: u64) -> (plan: Option<Option<CorrectionSchedule>>)
        ensures
            plan matches Some(p) ==> carried(p),
            self.gives(timeline, plan),
    {
        let before: u64 = self.revision.load(Ordering::Acquire);
        let (tag, word): (u64, u64) = self.payload.load();
        std::sync::atomic::fence(Ordering::Acquire);
        let after: u64 = self.revision.load(Ordering::Relaxed);
        let words = PlanWords { before, tag, word, after };
        assert(self.reads(words));
        find_plan(words, timeline)
    }
}

/// What the device observed in one callback: the source time that its output
/// began with, when that is presented, and the schedule that was applied.
#[derive(Clone, Copy, Debug, PartialEq, Eq)]
pub struct Observation {
    pub settled_seen: bool,
    pub timeline: u64,
    pub serial: u64,
    pub source_cursor_us: i64,
    pub presentation: Option<Instant>,
    pub actual_schedule: CorrectionSchedule,
}

/// What the clock model says of an observation: whether it has settled, and when
/// the observed source time was due.
#[derive(Clone, Copy, Debug, PartialEq, Eq)]
pub struct ModelReading {
    pub settled: bool,
    pub expected: Option<Instant>,
}

/// What becomes of an observation.
#[derive(Clone, Copy, Debug, PartialEq, Eq, Structural)]
pub enum Observed {
    /// It says nothing new.
    Nothing,
    /// The model is gone while a correction is running: the plan is withdrawn.
    Withdrawn,
    /// It is a measurement.
    Measured { error_us: i64 },
}

/// How late a presentation is, in whole microseconds, as far as that can be told. Parts of
/// a microsecond are dropped, whichever of the two comes first.
pub open spec fn lateness(presentation: Instant, expected: Instant) -> i64 {
    let late = instant_ns(presentation) - instant_ns(expected);
    told(
        if late >= 0 {
            late / 1_000
        } else {
            -((-late) / 1_000)
        },
    )
}

pub fn measure(presentation: Instant, expected: Instant) -> (error_us: i64)
    ensures
        error_us == lateness(presentation, expected),
{
    match presentation.checked_duration_since(expected) {
        Some(late) => {
            proof {
                lemma_whole_micros(instant_ns(presentation) - instant_ns(expected));
            }
            micros_at(0, true, late.as_micros())
        },
        None => {
            let early = expected.duration_since(presentation);
            proof {
                lemma_whole_micros(instant_ns(expected) - instant_ns(presentation));
            }
            micros_at(0, false, early.as_micros())
        },
    }
}

/// The memory of a feedback: which observations it has seen, and how often the
/// measured history has been forgotten.
#[derive(Clone, Copy, Debug, PartialEq, Eq, Structural)]
pub struct Feedback {
    pub settled_once: bool,
    pub timeline: Option<u64>,
    pub seen: Option<u64>,
    pub forgotten: u64,
}

/// The feedback once it has forgotten its measured history.
pub open spec fn forgetting(f: Feedback) -> Feedback {
    Feedback { forgotten: f.forgotten.wrapping_add(1), ..f }
}

/// What one observation does. An observation that is not newer than one already
/// seen changes nothing. The first one under a settled model forgets what was
/// measured while the model converged, whether it measures anything or not. A
/// model that cannot place the source withdraws a running correction, and with
/// it the history; without one, it is only passed over. An observation without a
/// presentation measures nothing, and keeps the history.
pub open spec fn observed(f: Feedback, model: ModelReading, input: Observation) -> (
    Feedback,
    Observed,
) {
    if f.seen matches Some(seen) && input.serial <= seen {
        (f, Observed::Nothing)
    } else {
        let noted = Feedback { seen: Some(input.serial), ..f };
        let settled = if input.settled_seen && !f.settled_once {
            forgetting(Feedback { settled_once: true, ..noted })
        } else {
            noted
        };
        match model.expected {
            None => if correcting(input.actual_schedule) {
                (forgetting(settled), Observed::Withdrawn)
            } else {
                (settled, Observed::Nothing)
            },
            Some(expected) => match input.presentation {
                None => (settled, Observed::Nothing),
                Some(presentation) => (
                    settled,
                    Observed::Measured { error_us: lateness(presentation, expected) },
                ),
            },
        }
    }
}

/// The feedback on a timeline: a new one begins with nothing seen and nothing
/// remembered.
pub open spec fn on_timeline(f: Feedback, timeline: u64) -> Feedback {
    if f.timeline == Some(timeline) {
        f
    } else {
        forgetting(Feedback { timeline: Some(timeline), seen: None, ..f })
    }
}

/// The plan that follows from a measurement. A reanchor is asked for at any time;
/// a correction only once both the model and the device have settled.
pub open spec fn concluded(
    settled: bool,
    settled_seen: bool,
    advised: CorrectionSchedule,
) -> CorrectionSchedule {
    if (settled && settled_seen) || advised.reanchor {
        advised
    } else {
        steady()
    }
}

pub fn conclude(settled: bool, settled_seen: bool, advised: CorrectionSchedule) -> (plan:
    CorrectionSchedule)
    ensures
        plan == concluded(settled, settled_seen, advised),
{
    if (settled && settled_seen) || advised.reanchor {
        advised
    } else {
        CorrectionSchedule::default()
    }
}

/// The decision of an observation, once the filter has advised on what was
/// measured: none, to withdraw the plan, or a plan.
pub open spec fn decision(
    outcome: Observed,
    model: ModelReading,
    input: Observation,
    advised: CorrectionSchedule,
) -> Option<Option<CorrectionSchedule>> {
    match outcome {
        Observed::Nothing => None,
        Observed::Withdrawn => Some(None),
        Observed::Measured { .. } => Some(
            Some(concluded(model.settled, input.settled_seen, advised)),
        ),
    }
}

pub fn decide(
    outcome: Observed,
    model: ModelReading,
    input: Observation,
    advised: CorrectionSchedule,
) -> (plan: Option<Option<CorrectionSchedule>>)
    ensures
        plan == decision(outcome, model, input, advised),
{
    match outcome {
        Observed::Nothing => None,
        Observed::Withdrawn => Some(None),
        Observed::Measured { .. } => Some(
            Some(conclude(model.settled, input.settled_seen, advised)),
        ),
    }
}

impl Feedback {
    pub fn new() -> (feedback: Feedback)
        ensures
            feedback == (Feedback {
                settled_once: false,
                timeline: None,
                seen: None,
                forgotten: 0,
            }),
    {
        Feedback { settled_once: false, timeline: None, seen: None, forgotten: 0 }
    }

    fn forget(&mut self)
        ensures
            *final(self) == forgetting(*old(self)),
    {
        self.forgotten = self.forgotten.wrapping_add(1);
    }

    /// Take in one observation.
    pub fn observe(&mut self, model: ModelReading, input: Observation) -> (outcome: Observed)
        ensures
            (*final(self), outcome) == observed(*old(self), model, input),
    {
        match self.seen {
            Some(seen) => {
                if input.serial <= seen {
                    return Observed::Nothing;
                }
            },
            None => {},
        }
        self.seen = Some(input.serial);
        if input.settled_seen && !self.settled_once {
            self.settled_once = true;
            self.forget();
        }
        let expected = match model.expected {
            Some(expected) => expected,
            None => {
                if input.actual_schedule.is_correcting() {
                    self.forget();
                    return Observed::Withdrawn;
                }
                return Observed::Nothing;
            },
        };
        match input.presentation {
            None => Observed::Nothing,
            Some(presentation) => Observed::Measured {
                error_us: measure(presentation, expected),
            },
        }
    }

    /// Take in an observation for a timeline. One from another timeline is not
    /// relabelled: it changes nothing.
    pub fn compute_observation(
        &mut self,
        model: ModelReading,
        input: Observation,
        timeline: u64,
    ) -> (outcome: Observed)
        ensures
            input.timeline != timeline ==> *final(self) == *old(self) && outcome
                == Observed::Nothing,
            input.timeline == timeline ==> (*final(self), outcome) == observed(
                on_timeline(*old(self), timeline),
                model,
                input,
            ),
    {
        if input.timeline != timeline {
            return Observed::Nothing;
        }
        if self.timeline != Some(timeline) {
            self.timeline = Some(timeline);
            self.seen = None;
            self.forget();
        }
        self.observe(model, input)
    }

    /// Publish a decision. A reanchor is not published: it belongs to the source.
    pub fn publish_observation(
        &self,
        decision: Option<Option<CorrectionSchedule>>,
        timeline: u64,
        mailbox: &PlanMailbox,
    ) -> (published: bool)
        ensures
            match decision {
                Some(plan) => if carried(plan) {
                    mailbox.publishes(timeline, plan, published)
                } else {
                    !published
                },
                None => !published,
            },
    {
        match decision {
            Some(plan) => if is_carried(plan) {
                mailbox.publish(timeline, plan)
            } else {
                false
            },
            None => false,
        }
    }
}

/// Deliveries that are doubled, late or out of order invent no measurement: once
/// an observation has been seen, it and everything before it changes nothing.
pub proof fn old_deliveries_change_nothing(
    f: Feedback,
    model: ModelReading,
    input: Observation,
    later_model: ModelReading,
    late: Observation,
)
    requires
        late.serial <= input.serial,
    ensures
        observed(observed(f, model, input).0, later_model, late) == (
            observed(f, model, input).0,
            Observed::Nothing,
        ),
{
}

/// A gap in the deliveries, and an observation without a measured timestamp, keep
/// the measured history: nothing is forgotten but for a first settling or a
/// withdrawn plan.
pub proof fn gaps_keep_the_history(f: Feedback, model: ModelReading, input: Observation)
    requires
        model.expected is Some,
        f.settled_once || !input.settled_seen,
    ensures
        observed(f, model, input).0.forgotten == f.forgotten,
{
}

/// What the clock model says of itself.
#[derive(Clone, Copy, Debug, PartialEq, Eq, Structural)]
pub struct ModelHealth {
    pub synchronized: bool,
    pub settled: bool,
    pub last_valid_t4_us: Option<i64>,
}

/// How long a model may be relied on after its last sample.
pub const SAMPLE_LIFE_US: i64 = 5_000_000;

/// Whether a model may be relied on: never, always because both sides share one
/// clock, or for a time after its last sample.
#[derive(Clone, Copy, Debug, PartialEq, Eq, Structural)]
pub enum ModelValidity {
    Invalid,
    SameClock,
    Sampled(i64),
    SampledUnsettled(i64),
}

impl ModelValidity {
    pub open spec fn of(health: ModelHealth) -> ModelValidity {
        if !health.synchronized {
            ModelValidity::Invalid
        } else {
            match health.last_valid_t4_us {
                Some(last) => if health.settled {
                    ModelValidity::Sampled(last)
                } else {
                    ModelValidity::SampledUnsettled(last)
                },
                None => ModelValidity::SameClock,
            }
        }
    }

    /// The validity of a model, from what it says of itself.
    pub fn from_sync(health: ModelHealth) -> (validity: ModelValidity)
        ensures
            validity == ModelValidity::of(health),
    {
        if !health.synchronized {
            ModelValidity::Invalid
        } else {
            match health.last_valid_t4_us {
                Some(last) => if health.settled {
                    ModelValidity::Sampled(last)
                } else {
                    ModelValidity::SampledUnsettled(last)
                },
                None => ModelValidity::SameClock,
            }
        }
    }

    pub open spec fn holds_at(self, now: i64) -> bool {
        match self {
            ModelValidity::Invalid => false,
            ModelValidity::SameClock => true,
            ModelValidity::Sampled(last) => 0 <= now - last <= SAMPLE_LIFE_US,
            ModelValidity::SampledUnsettled(last) => 0 <= now - last <= SAMPLE_LIFE_US,
        }
    }

    /// Whether the model may be relied on now. A clock that has gone back behind
    /// the last sample is not relied on.
    pub fn allows(self, now: i64) -> (allowed: bool)
        ensures
            allowed == self.holds_at(now),
    {
        match self {
            ModelValidity::Invalid => false,
            ModelValidity::SameClock => true,
            ModelValidity::Sampled(last) | ModelValidity::SampledUnsettled(last) => {
                let age: i128 = now as i128 - last as i128;
                0 <= age && age <= SAMPLE_LIFE_US as i128
            },
        }
    }

    pub open spec fn is_settled(self) -> bool {
        self is SameClock || self is Sampled
    }

    fn settled(self) -> (settled: bool)
        ensures
            settled == self.is_settled(),
    {
        match self {
            ModelValidity::SameClock => true,
            ModelValidity::Sampled(_) => true,
            _ => false,
        }
    }

    /// The words of a validity.
    pub open spec fn words(self) -> (u8, i64) {
        match self {
            ModelValidity::Invalid => (0, 0),
            ModelValidity::SameClock => (1, 0),
            ModelValidity::Sampled(last) => (2, last),
            ModelValidity::SampledUnsettled(last) => (3, last),
        }
    }

    pub fn encode(self) -> (words: (u8, i64))
        ensures
            words == self.words(),
    {
        match self {
            ModelValidity::Invalid => (0, 0),
            ModelValidity::SameClock => (1, 0),
            ModelValidity::Sampled(last) => (2, last),
            ModelValidity::SampledUnsettled(last) => (3, last),
        }
    }

    /// The validity of words.
    pub open spec fn of_words(kind: u8, last: i64) -> ModelValidity {
        if kind == 1 {
            ModelValidity::SameClock
        } else if kind == 2 {
            ModelValidity::Sampled(last)
        } else if kind == 3 {
            ModelValidity::SampledUnsettled(last)
        } else {
            ModelValidity::Invalid
        }
    }

    pub fn decode(kind: u8, last: i64) -> (validity: ModelValidity)
        ensures
            validity == ModelValidity::of_words(kind, last),
    {
        if kind == 1 {
            ModelValidity::SameClock
        } else if kind == 2 {
            ModelValidity::Sampled(last)
        } else if kind == 3 {
            ModelValidity::SampledUnsettled(last)
        } else {
            ModelValidity::Invalid
        }
    }
}

/// A validity comes back as it was published.
pub proof fn a_validity_comes_back(validity: ModelValidity)
    ensures
        ModelValidity::of_words(validity.words().0, validity.words().1) == validity,
{
}

/// A plan as a reader finds it: the revision of its publication, the plan, how
/// long it may be relied on, and the reset that it acknowledges.
#[derive(Clone, Copy, Debug, PartialEq, Eq, Structural)]
pub struct PlanReading {
    pub revision: u64,
    pub plan: Option<CorrectionSchedule>,
    pub validity: ModelValidity,
    pub acknowledged: u64,
}

/// What is found of a validated publication in one try.
#[derive(Clone, Copy, Debug, PartialEq, Eq, Structural)]
pub struct ValidatedWords {
    pub plan: PlanWords,
    pub kind: u8,
    pub last: i64,
    pub acknowledged: u64,
}

/// The reading that was found for a timeline.
pub open spec fn reading_found(found: ValidatedWords, timeline: u64) -> Option<PlanReading> {
    match plan_found(found.plan, timeline) {
        Some(plan) => Some(
            PlanReading {
                revision: found.plan.before,
                plan,
                validity: ModelValidity::of_words(found.kind, found.last),
                acknowledged: found.acknowledged,
            },
        ),
        None => None,
    }
}

pub fn find_reading(found: ValidatedWords, timeline: u64) -> (reading: Option<PlanReading>)
    ensures
        reading == reading_found(found, timeline),
        reading matches Some(r) ==> stands(r.revision) && carried(r.plan),
{
    match find_plan(found.plan, timeline) {
        Some(plan) => Some(
            PlanReading {
                revision: found.plan.before,
                plan,
                validity: ModelValidity::decode(found.kind, found.last),
                acknowledged: found.acknowledged,
            },
        ),
        None => None,
    }
}

/// One plan at a time, with the validity of its model and the reset that it
/// acknowledges.
#[derive(Debug)]
pub struct ValidatedPlanMailbox {
    revision: AtomicU64,
    plan: PlanPayload,
    validity_kind: AtomicU8,
    last_sample: AtomicI64,
    acknowledged_reset: AtomicU64,
}

impl Default for ValidatedPlanMailbox {
    fn default() -> (mailbox: ValidatedPlanMailbox)
        ensures
            mailbox.is_fresh(),
    {
        ValidatedPlanMailbox {
            revision: AtomicU64::new(0),
            plan: PlanPayload::new(),
            validity_kind: AtomicU8::new(0),
            last_sample: AtomicI64::new(0),
            acknowledged_reset: AtomicU64::new(0),
        }
    }
}

impl ValidatedPlanMailbox {
    /// Nothing is published yet.
    pub closed spec fn is_fresh(&self) -> bool {
        made_u64(self.revision, 0)
    }

    pub closed spec fn reads_revision(&self, revision: u64) -> bool {
        got_u64(self.revision, revision)
    }

    /// The revision that stands while something is written was set.
    pub closed spec fn opens_revision(&self, writing: u64) -> bool {
        began_writing(self.revision, writing)
    }

    /// The revision that stands once something is written was set.
    pub closed spec fn closes_revision(&self, written: u64) -> bool {
        ended_writing(self.revision, written)
    }

    /// A plan was stored, with the validity of its model and the reset that it
    /// acknowledges.
    pub closed spec fn stores(
        &self,
        timeline: u64,
        plan: Option<CorrectionSchedule>,
        validity: ModelValidity,
        reset_epoch: u64,
    ) -> bool {
        &&& self.plan.stores(timeline, plan)
        &&& put_u8(self.validity_kind, validity.words().0)
        &&& put_i64(self.last_sample, validity.words().1)
        &&& put_u64(self.acknowledged_reset, reset_epoch)
    }

    /// All of this was read.
    pub closed spec fn reads(&self, words: ValidatedWords) -> bool {
        &&& began_reading(self.revision, words.plan.before)
        &&& self.plan.reads(words.plan.tag, words.plan.word)
        &&& got_u8(self.validity_kind, words.kind)
        &&& got_i64(self.last_sample, words.last)
        &&& got_u64(self.acknowledged_reset, words.acknowledged)
        &&& ended_reading(self.revision, words.plan.after)
    }

    /// A plan was to be published, and whether it was: it was stored between two revisions,
    /// unless another writer is at work or the revisions are used up.
    pub open spec fn publishes(
        &self,
        timeline: u64,
        plan: Option<CorrectionSchedule>,
        validity: ModelValidity,
        reset_epoch: u64,
        published: bool,
    ) -> bool {
        exists|revision: u64| #[trigger]
            self.reads_revision(revision) && match next_revisions(revision) {
                Some((writing, written)) => {
                    &&& published
                    &&& self.opens_revision(writing)
                    &&& self.stores(timeline, plan, validity, reset_epoch)
                    &&& self.closes_revision(written)
                },
                None => !published,
            }
    }

    /// A plan was to be read for a timeline, and what was found.
    pub open spec fn gives(&self, timeline: u64, reading: Option<PlanReading>) -> bool {
        exists|words: ValidatedWords| #[trigger]
            self.reads(words) && reading == reading_found(words, timeline)
    }

    pub fn publish(
        &self,
        timeline: u64,
        plan: Option<CorrectionSchedule>,
        validity: ModelValidity,
    ) -> (published: bool)
        requires
            carried(plan),
        ensures
            self.publishes(timeline, plan, validity, 0, published),
    {
        self.publish_after_open(timeline, plan, validity, 0, || {})
    }

    pub fn publish_acknowledged(
        &self,
        timeline: u64,
        plan: Option<CorrectionSchedule>,
        validity: ModelValidity,
        reset_epoch: u64,
    ) -> (published: bool)
        requires
            carried(plan),
        ensures
            self.publishes(timeline, plan, validity, reset_epoch, published),
    {
        self.publish_after_open(timeline, plan, validity, reset_epoch, || {})
    }

    /// Publish, running `after_open` while readers are turned away. There is one
    /// serialized writer: `false` where another one is at work, or where the
    /// revisions are used up.
    pub fn publish_after_open<F: FnOnce()>(
        &self,
        timeline: u64,
        plan: Option<CorrectionSchedule>,
        validity: ModelValidity,
        reset_epoch: u64,
        after_open: F,
    ) -> (published: bool)
        requires
            carried(plan),
            call_requires(after_open, ()),
        ensures
            published ==> call_ensures(after_open, (), ()),
            self.publishes(timeline, plan, validity, reset_epoch, published),
    {
        let revision: u64 = self.revision.load(Ordering::Relaxed);
        assert(self.reads_revision(revision));
        let (writing, written): (u64, u64) = match revisions_after(revision) {
            Some(next) => next,
            None => {
                return false;
            },
        };
        self.revision.store(writing, Ordering::Relaxed);
        std::sync::atomic::fence(Ordering::Release);
        after_open();
        self.plan.store(timeline, plan);
        let (kind, last): (u8, i64) = validity.encode();
        self.last_sample.store(last, Ordering::Relaxed);
        self.validity_kind.store(kind, Ordering::Relaxed);
        self.acknowledged_reset.store(reset_epoch, Ordering::Relaxed);
        self.revision.store(written, Ordering::Release);
        true
    }

    /// One try to read the plan for a timeline.
    pub fn read(&self, timeline: u64) -> (reading: Option<PlanReading>)
        ensures
            reading matches Some(r) ==> stands(r.revision) && carried(r.plan),
            self.gives(timeline, reading),
    {
        let before: u64 = self.revision.load(Ordering::Acquire);
        let (tag, word): (u64, u64) = self.plan.load();
        let last: i64 = self.last_sample.load(Ordering::Relaxed);
        let kind: u8 = self.validity_kind.load(Ordering::Relaxed);
        let acknowledged: u64 = self.acknowledged_reset.load(Ordering::Relaxed);
        std::sync::atomic::fence(Ordering::Acquire);
        let after: u64 = self.revision.load(Ordering::Relaxed);
        let plan = PlanWords { before, tag, word, after };
        let words = ValidatedWords { plan, kind, last, acknowledged };
        assert(self.reads(words));
        find_reading(words, timeline)
    }
}

/// What was published is found again, for the timeline that it was published for and for
/// no other: the plan, the validity of its model, and the reset that it acknowledges.
pub proof fn a_published_plan_is_found(
    timeline: u64,
    plan: Option<CorrectionSchedule>,
    validity: ModelValidity,
    acknowledged: u64,
    revision: u64,
    other: u64,
)
    requires
        carried(plan),
        revision != 0,
        revision % 2 == 0,
        other != timeline,
    ensures
        ({
            let found = ValidatedWords {
                plan: PlanWords {
                    before: revision,
                    tag: timeline,
                    word: plan_word(plan),
                    after: revision,
                },
                kind: validity.words().0,
                last: validity.words().1,
                acknowledged,
            };
            &&& plan_found(found.plan, timeline) == Some(plan)
            &&& plan_found(found.plan, other) is None
            &&& reading_found(found, timeline) == Some(
                PlanReading { revision, plan, validity, acknowledged },
            )
            &&& reading_found(found, other) is None
        }),
{
    a_plan_comes_back(plan);
    a_validity_comes_back(validity);
}

/// A plan that a reader keeps, with the timeline that it is for.
#[derive(Clone, Copy, Debug, PartialEq, Eq, Structural)]
pub struct CachedPlan {
    pub timeline: u64,
    pub reading: PlanReading,
}

/// The device's side: the plan it last found, the publication it has given up,
/// and how often it has reset what it follows.
#[derive(Clone, Copy, Debug, PartialEq, Eq, Structural)]
pub struct ValidatedPlanReader {
    settled_seen: bool,
    cached: Option<CachedPlan>,
    invalidated: Option<u64>,
    reset_epoch: u64,
}

impl Default for ValidatedPlanReader {
    fn default() -> (reader: ValidatedPlanReader)
        ensures
            reader.memory() == (PlanMemory {
                settled_seen: false,
                cached: None,
                invalidated: None,
                reset_epoch: 0,
            }),
    {
        ValidatedPlanReader { settled_seen: false, cached: None, invalidated: None, reset_epoch: 0 }
    }
}

/// The reader's state, as a value.
pub struct PlanMemory {
    pub settled_seen: bool,
    pub cached: Option<CachedPlan>,
    pub invalidated: Option<u64>,
    pub reset_epoch: u64,
}

/// The reader once it has looked: a settled model that may be relied on is seen
/// for good, and a plan is kept if it acknowledges the reader's last reset.
pub open spec fn looked(
    m: PlanMemory,
    found: Option<PlanReading>,
    timeline: u64,
    now: i64,
) -> PlanMemory {
    match found {
        None => m,
        Some(reading) => PlanMemory {
            settled_seen: m.settled_seen || (reading.validity.holds_at(now)
                && reading.validity.is_settled()),
            cached: if reading.acknowledged == m.reset_epoch {
                Some(CachedPlan { timeline, reading })
            } else {
                m.cached
            },
            ..m
        },
    }
}

/// What the reader follows: nothing is known, no plan, or the plan that it keeps.
/// A plan whose model can no longer be relied on is given up; if a correction is
/// running, the history behind it is reset, and only a plan that acknowledges
/// that reset is followed after it.
pub open spec fn followed(
    m: PlanMemory,
    timeline: u64,
    now: i64,
    actual: CorrectionSchedule,
) -> (PlanMemory, Option<Option<CorrectionSchedule>>) {
    match m.cached {
        None => (m, None),
        Some(cached) => if cached.timeline != timeline || cached.reading.acknowledged
            != m.reset_epoch || m.invalidated == Some(cached.reading.revision) {
            (m, Some(None))
        } else if !cached.reading.validity.holds_at(now) {
            (
                PlanMemory {
                    invalidated: Some(cached.reading.revision),
                    reset_epoch: if correcting(actual) && m.reset_epoch < u64::MAX {
                        (m.reset_epoch + 1) as u64
                    } else {
                        m.reset_epoch
                    },
                    ..m
                },
                Some(None),
            )
        } else {
            (m, Some(cached.reading.plan))
        },
    }
}

impl ValidatedPlanReader {
    pub closed spec fn memory(self) -> PlanMemory {
        PlanMemory {
            settled_seen: self.settled_seen,
            cached: self.cached,
            invalidated: self.invalidated,
            reset_epoch: self.reset_epoch,
        }
    }

    pub fn reset_epoch(&self) -> (epoch: u64)
        ensures
            epoch == self.memory().reset_epoch,
    {
        self.reset_epoch
    }

    /// Whether a settled model has ever been seen.
    pub fn settled_seen(&self) -> (seen: bool)
        ensures
            seen == self.memory().settled_seen,
    {
        self.settled_seen
    }

    /// Take in what was found, and say what to follow.
    pub fn take(
        &mut self,
        found: Option<PlanReading>,
        timeline: u64,
        now: i64,
        actual_schedule: CorrectionSchedule,
    ) -> (plan: Option<Option<CorrectionSchedule>>)
        ensures
            (final(self).memory(), plan) == followed(
                looked(old(self).memory(), found, timeline, now),
                timeline,
                now,
                actual_schedule,
            ),
    {
        match found {
            Some(reading) => {
                if reading.validity.allows(now) && reading.validity.settled() {
                    self.settled_seen = true;
                }
                if reading.acknowledged == self.reset_epoch {
                    self.cached = Some(CachedPlan { timeline, reading });
                }
            },
            None => {},
        }
        match self.cached {
            None => None,
            Some(cached) => {
                if cached.timeline != timeline || cached.reading.acknowledged != self.reset_epoch {
                    return Some(None);
                }
                if self.invalidated == Some(cached.reading.revision) {
                    return Some(None);
                }
                if !cached.reading.validity.allows(now) {
                    self.invalidated = Some(cached.reading.revision);
                    if actual_schedule.is_correcting() && self.reset_epoch < u64::MAX {
                        self.reset_epoch = self.reset_epoch + 1;
                    }
                    Some(None)
                } else {
                    Some(cached.reading.plan)
                }
            },
        }
    }

    /// Look into a mailbox, and say what to follow. What is found there decides.
    pub fn read(
        &mut self,
        mailbox: &ValidatedPlanMailbox,
        timeline: u64,
        now: i64,
        actual_schedule: CorrectionSchedule,
    ) -> (plan: Option<Option<CorrectionSchedule>>)
        ensures
            exists|found: Option<PlanReading>| #[trigger]
                mailbox.gives(timeline, found) && (final(self).memory(), plan) == followed(
                    looked(old(self).memory(), found, timeline, now),
                    timeline,
                    now,
                    actual_schedule,
                ),
    {
        let found = mailbox.read(timeline);
        self.take(found, timeline, now, actual_schedule)
    }
}

/// A plan is followed only while it may be: it is for this timeline, it
/// acknowledges the reader's last reset, and its model can be relied on now. So a
/// result that was computed before a reset, however fresh its publication, cannot
/// acknowledge it.
pub proof fn only_an_acknowledged_plan_is_followed(
    m: PlanMemory,
    found: Option<PlanReading>,
    timeline: u64,
    now: i64,
    actual: CorrectionSchedule,
)
    ensures
        ({
            let before = looked(m, found, timeline, now);
            let (after, plan) = followed(before, timeline, now, actual);
            plan matches Some(Some(schedule)) ==> before.cached matches Some(cached)
                && cached.timeline == timeline && cached.reading.acknowledged == after.reset_epoch
                && cached.reading.validity.holds_at(now) && after.reset_epoch == m.reset_epoch
        }),
        ({
            let before = looked(m, found, timeline, now);
            let (after, plan) = followed(before, timeline, now, actual);
            m.settled_seen ==> after.settled_seen
        }),
{
}

/// A plan that has been given up stays given up: once its model could not be
/// relied on, the same publication is never followed again, even if the clock
/// goes back.
pub proof fn a_plan_given_up_is_not_followed_again(
    m: PlanMemory,
    timeline: u64,
    now: i64,
    later: i64,
    actual: CorrectionSchedule,
    later_actual: CorrectionSchedule,
)
    requires
        m.cached is Some,
        m.cached->0.timeline == timeline,
        m.cached->0.reading.acknowledged == m.reset_epoch,
        m.invalidated != Some(m.cached->0.reading.revision),
        !m.cached->0.reading.validity.holds_at(now),
    ensures
        followed(followed(m, timeline, now, actual).0, timeline, later, later_actual).1 == Some(
            None::<CorrectionSchedule>,
        ),
        correcting(actual) && m.reset_epoch < u64::MAX ==> followed(
            m,
            timeline,
            now,
            actual,
        ).0.reset_epoch == m.reset_epoch + 1,
{
}

/// An observation together with the reset that the device had made by then.
#[derive(Clone, Copy, Debug, PartialEq, Eq)]
pub struct ValidatedObservation {
    pub latency_floor_ns: Option<u64>,
    pub input: Observation,
    pub reset_epoch: u64,
}

/// A feedback that follows the device's resets.
#[derive(Clone, Copy, Debug, PartialEq, Eq, Structural)]
pub struct ValidatedFeedback {
    pub feedback: Feedback,
    pub reset_epoch: u64,
}

/// What the worker does with an observation it has decided on.
#[derive(Clone, Copy, Debug, PartialEq, Eq, Structural)]
pub enum Processed {
    /// Nothing.
    Nothing,
    /// The source is asked for a new anchor.
    Reanchor,
    /// This plan is published.
    Publish(Option<CorrectionSchedule>),
}

/// A reanchor is a request to the source, made only with a measured latency. A
/// reset is acknowledged with a steady plan where nothing else was decided.
pub open spec fn processed(
    decision: Option<Option<CorrectionSchedule>>,
    reset: bool,
    latency_floor_ns: Option<u64>,
) -> Processed {
    if decision matches Some(Some(schedule)) && schedule.reanchor {
        if latency_floor_ns is Some {
            Processed::Reanchor
        } else {
            Processed::Nothing
        }
    } else {
        match decision {
            Some(plan) => Processed::Publish(plan),
            None => if reset {
                Processed::Publish(Some(steady()))
            } else {
                Processed::Nothing
            },
        }
    }
}

/// What stays of a publication when the model changes: its plan, unless the model
/// cannot be relied on, and the reset that it acknowledges.
pub open spec fn kept_of(
    found: Option<PlanReading>,
    validity: ModelValidity,
    reset_epoch: u64,
) -> (Option<CorrectionSchedule>, u64) {
    match found {
        Some(reading) => (
            if validity is Invalid {
                None
            } else {
                reading.plan
            },
            reading.acknowledged,
        ),
        None => (None, reset_epoch),
    }
}

impl ValidatedPlanMailbox {
    /// A change of the model was published over what was found here.
    pub open spec fn is_carried_on(
        &self,
        timeline: u64,
        health: ModelHealth,
        reset_epoch: u64,
    ) -> bool {
        exists|found: Option<PlanReading>, published: bool|
            self.is_carried_over(timeline, ModelValidity::of(health), reset_epoch, found, published)
    }

    /// A plan was found, and what stays of it was published under a validity.
    pub open spec fn is_carried_over(
        &self,
        timeline: u64,
        validity: ModelValidity,
        reset_epoch: u64,
        found: Option<PlanReading>,
        published: bool,
    ) -> bool {
        let (plan, acknowledged) = kept_of(found, validity, reset_epoch);
        &&& self.gives(timeline, found)
        &&& self.publishes(timeline, plan, validity, acknowledged, published)
    }
}

impl ValidatedFeedback {
    pub fn new() -> (feedback: ValidatedFeedback)
        ensures
            feedback.reset_epoch == 0,
            feedback.feedback == (Feedback {
                settled_once: false,
                timeline: None,
                seen: None,
                forgotten: 0,
            }),
    {
        ValidatedFeedback { feedback: Feedback::new(), reset_epoch: 0 }
    }

    /// Take in an observation. `None` where it is from another timeline, or from
    /// before a reset that is already known. Otherwise: whether it tells of a new
    /// reset, which forgets the history, and what it observes.
    pub fn begin_process(
        &mut self,
        model: ModelReading,
        input: ValidatedObservation,
        timeline: u64,
    ) -> (begun: Option<(bool, Observed)>)
        ensures
            match begun {
                None => (input.input.timeline != timeline || input.reset_epoch < old(
                    self,
                ).reset_epoch) && *final(self) == *old(self),
                Some((reset, outcome)) => {
                    let known = if reset {
                        forgetting(Feedback { seen: None, ..old(self).feedback })
                    } else {
                        old(self).feedback
                    };
                    &&& input.input.timeline == timeline
                    &&& input.reset_epoch >= old(self).reset_epoch
                    &&& reset == (input.reset_epoch > old(self).reset_epoch)
                    &&& final(self).reset_epoch == input.reset_epoch
                    &&& (final(self).feedback, outcome) == observed(
                        on_timeline(known, timeline),
                        model,
                        input.input,
                    )
                },
            },
    {
        if input.input.timeline != timeline || input.reset_epoch < self.reset_epoch {
            return None;
        }
        let reset: bool = input.reset_epoch > self.reset_epoch;
        if reset {
            self.reset_epoch = input.reset_epoch;
            self.feedback.forget();
            self.feedback.seen = None;
        }
        let outcome = self.feedback.compute_observation(model, input.input, timeline);
        Some((reset, outcome))
    }

    /// What to do about a decision.
    pub fn settle_process(
        decision: Option<Option<CorrectionSchedule>>,
        reset: bool,
        latency_floor_ns: Option<u64>,
    ) -> (result: Processed)
        ensures
            result == processed(decision, reset, latency_floor_ns),
    {
        match decision {
            Some(plan) => {
                let reanchor: bool = match plan {
                    Some(schedule) => schedule.reanchor,
                    None => false,
                };
                if reanchor {
                    if latency_floor_ns.is_some() {
                        Processed::Reanchor
                    } else {
                        Processed::Nothing
                    }
                } else {
                    Processed::Publish(plan)
                }
            },
            None => if reset {
                Processed::Publish(Some(CorrectionSchedule::default()))
            } else {
                Processed::Nothing
            },
        }
    }

    /// Finish an observation: publish what was decided, acknowledging the reset
    /// that it belongs to. The answer is the observation, where it asks the source
    /// for a new anchor.
    pub fn finish_process(
        &self,
        decision: Option<Option<CorrectionSchedule>>,
        reset: bool,
        input: ValidatedObservation,
        timeline: u64,
        validity: ModelValidity,
        plans: &ValidatedPlanMailbox,
    ) -> (request: Option<ValidatedObservation>)
        requires
            decision matches Some(Some(schedule)) ==> schedule.insert_every_n_frames == 0
                || schedule.drop_every_n_frames == 0,
        ensures
            match processed(decision, reset, input.latency_floor_ns) {
                Processed::Nothing => request is None,
                Processed::Reanchor => request == Some(input),
                Processed::Publish(plan) => request is None && exists|published: bool| #[trigger]
                    plans.publishes(timeline, plan, validity, self.reset_epoch, published),
            },
    {
        match ValidatedFeedback::settle_process(decision, reset, input.latency_floor_ns) {
            Processed::Nothing => None,
            Processed::Reanchor => Some(input),
            Processed::Publish(plan) => {
                let _ = plans.publish_acknowledged(timeline, plan, validity, self.reset_epoch);
                None
            },
        }
    }

    /// Publish a change of the model. A model that can be relied on again does not
    /// by itself restore a plan, nor acknowledge a reset; one that cannot be
    /// withdraws the plan.
    pub fn model_changed(
        &self,
        health: ModelHealth,
        timeline: u64,
        plans: &ValidatedPlanMailbox,
    )
        ensures
            plans.is_carried_on(timeline, health, self.reset_epoch),
    {
        let validity = ModelValidity::from_sync(health);
        let found = plans.read(timeline);
        let (plan, acknowledged): (Option<CorrectionSchedule>, u64) = self.carried_over(
            found,
            validity,
        );
        let published: bool = plans.publish_acknowledged(timeline, plan, validity, acknowledged);
        assert(plans.is_carried_over(timeline, validity, self.reset_epoch, found, published));
    }

    /// What stays of a publication when the model changes.
    pub fn carried_over(&self, found: Option<PlanReading>, validity: ModelValidity) -> (kept: (
        Option<CorrectionSchedule>,
        u64,
    ))
        ensures
            kept == kept_of(found, validity, self.reset_epoch),
    {
        match found {
            Some(reading) => match validity {
                ModelValidity::Invalid => (None, reading.acknowledged),
                _ => (reading.plan, reading.acknowledged),
            },
            None => (None, self.reset_epoch),
        }
    }

    /// Begin a new timeline after a reanchor was committed, with a steady plan.
    pub fn reanchor_committed(
        &mut self,
        timeline: u64,
        health: ModelHealth,
        plans: &ValidatedPlanMailbox,
    )
        ensures
            final(self).feedback == forgetting(
                Feedback { timeline: Some(timeline), seen: None, ..old(self).feedback },
            ),
            final(self).reset_epoch == old(self).reset_epoch,
            exists|published: bool| #[trigger]
                plans.publishes(
                    timeline,
                    Some(steady()),
                    ModelValidity::of(health),
                    old(self).reset_epoch,
                    published,
                ),
    {
        self.feedback.timeline = Some(timeline);
        self.feedback.seen = None;
        self.feedback.forget();
        let _ = plans.publish_acknowledged(
            timeline,
            Some(CorrectionSchedule::default()),
            ModelValidity::from_sync(health),
            self.reset_epoch,
        );
    }
}

} // verus!
