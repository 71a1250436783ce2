//! What the measured feedback comes to: what an observation says, when a plan follows from it,
//! and when a device follows that plan.
use super::feedback::{
    concluded, decision, followed, is_carried, kept_of, lateness, looked, observed, on_timeline,
    plan_found, processed, reading_found, Feedback, ModelHealth, ModelReading, ModelValidity,
    Observation, Observed, PlanMemory, PlanReading, Processed, ValidatedWords,
};
use crate::audio::sync_correction::CorrectionSchedule;
use crate::sync::raw_clock::instant_ns;
use std::time::Instant;
use vstd::prelude::*;

verus! {

/// The error of a presentation is how much later it is than expected, in whole microseconds
/// towards nothing, negative where it is early, as far as one number can tell it.
pub proof fn the_error_is_how_late_it_is(presentation: Instant, expected: Instant)
    ensures
        ({
            let late = instant_ns(presentation) - instant_ns(expected);
            let error = lateness(presentation, expected);
            &&& late == 0 ==> error == 0
            &&& 0 <= late < 1_000 * i64::MAX ==> error * 1_000 <= late < (error + 1) * 1_000
            &&& 1_000 * i64::MIN < late <= 0 ==> error * 1_000 >= late > (error - 1) * 1_000
            &&& late >= 1_000 * i64::MAX ==> error == i64::MAX
            &&& late <= 1_000 * i64::MIN ==> error == i64::MIN
        }),
{
}

/// An observation is taken in once: one that is not newer than another that was seen says
/// nothing and changes nothing, and one that is newer is the last that was seen. It is a
/// measurement exactly where the model can place the source and a presentation was measured,
/// and its error is then how late that was. It withdraws the plan exactly where the model cannot
/// place the source while a correction is running.
pub proof fn an_observation_measures_or_withdraws(
    f: Feedback,
    model: ModelReading,
    input: Observation,
)
    ensures
        ({
            let (after, outcome) = observed(f, model, input);
            let old = f.seen matches Some(seen) && input.serial <= seen;
            let corrects = input.actual_schedule.insert_every_n_frames > 0
                || input.actual_schedule.drop_every_n_frames > 0;
            &&& old ==> after == f && outcome is Nothing
            &&& !old ==> after.seen == Some(input.serial)
            &&& outcome is Measured <==> !old && model.expected is Some && input.presentation
                is Some
            &&& outcome matches Observed::Measured { error_us } ==> error_us == lateness(
                input.presentation->0,
                model.expected->0,
            )
            &&& outcome is Withdrawn <==> !old && model.expected is None && corrects
            &&& after.timeline == f.timeline
            &&& !old ==> (after.settled_once <==> f.settled_once || input.settled_seen)
        }),
{
}

/// The history is forgotten when the model is first seen settled and when a plan is withdrawn,
/// and by no other observation.
pub proof fn the_history_is_forgotten_for_a_reason(
    f: Feedback,
    model: ModelReading,
    input: Observation,
)
    requires
        f.forgotten + 2 <= u64::MAX,
    ensures
        ({
            let (after, outcome) = observed(f, model, input);
            let old = f.seen matches Some(seen) && input.serial <= seen;
            after.forgotten == f.forgotten + (if !old && input.settled_seen && !f.settled_once {
                1int
            } else {
                0
            }) + (if outcome is Withdrawn {
                1int
            } else {
                0
            })
        }),
{
}

/// A new timeline begins with nothing seen and nothing remembered; on its own one a feedback
/// stays as it is.
pub proof fn a_new_timeline_begins_without_history(f: Feedback, timeline: u64)
    requires
        f.forgotten < u64::MAX,
    ensures
        ({
            let after = on_timeline(f, timeline);
            &&& after.timeline == Some(timeline)
            &&& f.timeline == Some(timeline) ==> after == f
            &&& f.timeline != Some(timeline) ==> after.seen is None && after.forgotten
                == f.forgotten + 1
            &&& after.settled_once == f.settled_once
        }),
{
}

/// What the filter advises is followed once the model and the device have settled. Before that
/// nothing is corrected, but for a reanchor, which is passed on at any time. Only a measurement
/// leads to a plan, and only a withdrawal to none.
pub proof fn advice_is_followed_once_all_has_settled(
    outcome: Observed,
    model: ModelReading,
    input: Observation,
    advised: CorrectionSchedule,
)
    ensures
        model.settled && input.settled_seen ==> concluded(
            model.settled,
            input.settled_seen,
            advised,
        ) == advised,
        advised.reanchor ==> concluded(model.settled, input.settled_seen, advised) == advised,
        !(model.settled && input.settled_seen) && !advised.reanchor ==> ({
            let plan = concluded(model.settled, input.settled_seen, advised);
            plan.insert_every_n_frames == 0 && plan.drop_every_n_frames == 0 && !plan.reanchor
        }),
        outcome is Nothing <==> decision(outcome, model, input, advised) is None,
        outcome is Withdrawn ==> decision(outcome, model, input, advised) == Some(
            None::<CorrectionSchedule>,
        ),
        outcome is Measured ==> decision(outcome, model, input, advised) == Some(
            Some(concluded(model.settled, input.settled_seen, advised)),
        ),
{
}

/// A reanchor never enters the mailbox: it is asked of the source, where a latency was measured.
/// Every other plan is published, a withdrawal too, and a reset that nothing was decided about
/// is acknowledged with a plan that changes nothing.
pub proof fn a_decision_is_published_or_asked_of_the_source(
    decided: Option<Option<CorrectionSchedule>>,
    reset: bool,
    latency_floor_ns: Option<u64>,
)
    ensures
        ({
            let result = processed(decided, reset, latency_floor_ns);
            let reanchors = decided matches Some(Some(schedule)) && schedule.reanchor;
            &&& result is Reanchor <==> reanchors && latency_floor_ns is Some
            &&& reanchors ==> !(result is Publish)
            &&& decided is Some && !reanchors ==> result == Processed::Publish(decided->0)
            &&& decided is None && reset ==> (result matches Processed::Publish(Some(plan))
                && plan.insert_every_n_frames == 0 && plan.drop_every_n_frames == 0
                && !plan.reanchor)
            &&& decided is None && !reset ==> result is Nothing
            &&& result matches Processed::Publish(Some(plan)) ==> !plan.reanchor
        }),
{
}

/// A model that is not synchronized is never relied on; one without samples always, because
/// both sides share one clock; and one with samples from its last one on, for five seconds.
pub proof fn a_model_is_relied_on_for_a_time(health: ModelHealth, now: i64)
    ensures
        ({
            let validity = ModelValidity::of(health);
            &&& !health.synchronized ==> !validity.holds_at(now)
            &&& health.synchronized && health.last_valid_t4_us is None ==> validity.holds_at(now)
            &&& health.synchronized ==> (health.last_valid_t4_us matches Some(last) ==> (
            validity.holds_at(now) <==> last <= now && now - last <= 5_000_000))
            &&& validity.is_settled() <==> health.synchronized && (health.last_valid_t4_us is None
                || health.settled)
        }),
{
}

/// A publication is found where one stands, unchanged from the beginning of the reading to its
/// end, and is for the timeline that is asked about.
pub proof fn a_plan_is_found_where_it_stands(words: ValidatedWords, timeline: u64)
    ensures
        plan_found(words.plan, timeline) is Some <==> words.plan.before != 0 && words.plan.before
            % 2 == 0 && words.plan.after == words.plan.before && words.plan.tag == timeline,
        reading_found(words, timeline) is Some <==> plan_found(words.plan, timeline) is Some,
        reading_found(words, timeline) matches Some(reading) ==> {
            &&& Some(reading.plan) == plan_found(words.plan, timeline)
            &&& reading.revision == words.plan.before
            &&& reading.acknowledged == words.acknowledged
        },
{
}

/// A mailbox carries a plan that only drops or only repeats, or none, and never a reanchor.
pub proof fn a_mailbox_carries_one_cadence(plan: Option<CorrectionSchedule>, fits: bool)
    requires
        call_ensures(is_carried, (plan,), fits),
    ensures
        plan is None ==> fits,
        plan matches Some(schedule) ==> (fits <==> !schedule.reanchor && (
        schedule.insert_every_n_frames == 0 || schedule.drop_every_n_frames == 0)),
{
}

/// A device keeps a plan exactly where it acknowledges the device's last reset, and remembers
/// for good that it has seen a settled model that can be relied on. Nothing that is found
/// changes anything else.
pub proof fn a_device_keeps_what_acknowledges_its_reset(
    m: PlanMemory,
    found: Option<PlanReading>,
    timeline: u64,
    now: i64,
)
    ensures
        ({
            let after = looked(m, found, timeline, now);
            &&& found is None ==> after == m
            &&& found matches Some(reading) ==> {
                &&& reading.acknowledged == m.reset_epoch ==> (after.cached matches Some(cached)
                    && cached.timeline == timeline && cached.reading == reading)
                &&& reading.acknowledged != m.reset_epoch ==> after.cached == m.cached
                &&& after.settled_seen <==> m.settled_seen || (reading.validity.holds_at(now)
                    && reading.validity.is_settled())
            }
            &&& after.invalidated == m.invalidated
            &&& after.reset_epoch == m.reset_epoch
        }),
{
}

/// A device follows the plan that it keeps, exactly as long as that is for its timeline,
/// acknowledges its last reset, was not given up, and its model can be relied on. Where only the
/// model fails it gives the plan up, and resets what it follows if a correction is running.
/// Without a plan nothing is known; in every other case no plan is followed.
pub proof fn a_device_follows_what_it_may(
    m: PlanMemory,
    timeline: u64,
    now: i64,
    actual: CorrectionSchedule,
)
    ensures
        ({
            let (after, plan) = followed(m, timeline, now, actual);
            let corrects = actual.insert_every_n_frames > 0 || actual.drop_every_n_frames > 0;
            &&& m.cached is None ==> plan is None && after == m
            &&& m.cached matches Some(cached) ==> {
                let stands = cached.timeline == timeline && cached.reading.acknowledged
                    == m.reset_epoch && m.invalidated != Some(cached.reading.revision);
                let valid = cached.reading.validity.holds_at(now);
                &&& plan is Some
                &&& stands && valid ==> plan == Some(cached.reading.plan) && after == m
                &&& !stands ==> plan == Some(None::<CorrectionSchedule>) && after == m
                &&& stands && !valid ==> {
                    &&& plan == Some(None::<CorrectionSchedule>)
                    &&& after.invalidated == Some(cached.reading.revision)
                    &&& !corrects ==> after.reset_epoch == m.reset_epoch
                    &&& corrects && m.reset_epoch < u64::MAX ==> after.reset_epoch == m.reset_epoch
                        + 1
                    &&& after.reset_epoch >= m.reset_epoch
                }
            }
            &&& after.cached == m.cached
            &&& after.settled_seen == m.settled_seen
        }),
{
}

/// A change of the model keeps the plan and the reset that it acknowledges, but for a model that
/// cannot be relied on, which withdraws the plan. Where nothing is found there is no plan, and
/// the last reset is acknowledged.
pub proof fn a_change_of_the_model_keeps_the_plan(
    found: Option<PlanReading>,
    validity: ModelValidity,
    reset_epoch: u64,
)
    ensures
        ({
            let (plan, acknowledged) = kept_of(found, validity, reset_epoch);
            &&& found matches Some(reading) ==> acknowledged == reading.acknowledged
            &&& found is None ==> plan is None && acknowledged == reset_epoch
            &&& validity is Invalid ==> plan is None
            &&& !(validity is Invalid) ==> (found matches Some(reading) ==> plan == reading.plan)
        }),
{
}

} // verus!
