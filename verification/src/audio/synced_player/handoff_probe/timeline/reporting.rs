//! What the feedback of a timeline takes in and publishes.
use super::feedback::{
    Feedback, ModelHealth, ModelReading, ModelValidity, Observation, Observed, PlanMailbox,
    ValidatedFeedback, ValidatedObservation, ValidatedPlanMailbox,
};
use super::tape::TapePreparation;
use crate::audio::sync_correction::CorrectionSchedule;
use crate::audio::synced_player::handoff_probe::admission::SourceLedger;
use crate::audio::synced_player::ingress::ControlGate;
use vstd::prelude::*;

verus! {

/// An observation of another timeline says nothing and changes nothing; one of a new timeline begins
/// without history, and is then the last that was seen.
pub proof fn an_observation_is_of_its_timeline(
    feedback: &mut Feedback,
    model: ModelReading,
    input: Observation,
    timeline: u64,
    outcome: Observed,
)
    requires
        call_ensures(Feedback::compute_observation, (feedback, model, input, timeline), outcome),
    ensures
        input.timeline != timeline ==> *final(feedback) == *old(feedback) && outcome is Nothing,
        input.timeline == timeline ==> final(feedback).timeline == Some(timeline),
        input.timeline == timeline && old(feedback).timeline != Some(timeline)
            ==> final(feedback).seen == Some(input.serial),
        input.timeline == timeline && old(feedback).timeline == Some(timeline) ==> (old(
            feedback,
        ).seen matches Some(seen) ==> if input.serial <= seen {
            *final(feedback) == *old(feedback) && outcome is Nothing
        } else {
            final(feedback).seen == Some(input.serial)
        }),
        outcome is Measured ==> model.expected is Some && input.presentation is Some,
        outcome is Withdrawn ==> model.expected is None,
{
}

/// What was decided is published for its timeline where a mailbox can carry it, and nothing else is.
pub proof fn a_decision_is_published_for_its_timeline(
    feedback: Feedback,
    decision: Option<Option<CorrectionSchedule>>,
    timeline: u64,
    mailbox: &PlanMailbox,
    published: bool,
)
    requires
        call_ensures(
            Feedback::publish_observation,
            (&feedback, decision, timeline, mailbox),
            published,
        ),
    ensures
        published ==> (decision matches Some(plan) && mailbox.publishes(timeline, plan, true)),
        decision is None ==> !published,
        decision matches Some(Some(plan)) ==> plan.reanchor ==> !published,
{
}

/// A report is taken in only on its own timeline and only where it is not from before the last reset;
/// one from behind a reset begins without history, under that reset.
pub proof fn a_report_is_taken_in_under_its_reset(
    feedback: &mut ValidatedFeedback,
    model: ModelReading,
    input: ValidatedObservation,
    timeline: u64,
    begun: Option<(bool, Observed)>,
)
    requires
        call_ensures(ValidatedFeedback::begin_process, (feedback, model, input, timeline), begun),
    ensures
        begun is Some <==> input.input.timeline == timeline && input.reset_epoch >= old(
            feedback,
        ).reset_epoch,
        begun is None ==> *final(feedback) == *old(feedback),
        begun matches Some((reset, outcome)) ==> {
            &&& reset <==> input.reset_epoch > old(feedback).reset_epoch
            &&& final(feedback).reset_epoch == input.reset_epoch
            &&& final(feedback).feedback.timeline == Some(timeline)
            &&& reset ==> final(feedback).feedback.seen == Some(input.input.serial)
            &&& outcome is Measured ==> model.expected is Some && input.input.presentation is Some
        },
{
}

/// What was decided of a report is published with the validity of its model and the reset that it
/// acknowledges. A reanchor is asked of the source instead, with the report, where a latency was
/// measured.
pub proof fn a_report_is_answered(
    feedback: ValidatedFeedback,
    decision: Option<Option<CorrectionSchedule>>,
    reset: bool,
    input: ValidatedObservation,
    timeline: u64,
    validity: ModelValidity,
    plans: &ValidatedPlanMailbox,
    request: Option<ValidatedObservation>,
)
    requires
        call_ensures(
            ValidatedFeedback::finish_process,
            (&feedback, decision, reset, input, timeline, validity, plans),
            request,
        ),
    ensures
        request is Some <==> (decision matches Some(Some(plan)) && plan.reanchor)
            && input.latency_floor_ns is Some,
        request matches Some(asked) ==> asked == input,
        decision matches Some(plan) ==> (!(plan matches Some(schedule) && schedule.reanchor)
            ==> exists|published: bool| #[trigger]
            plans.publishes(timeline, plan, validity, feedback.reset_epoch, published)),
        decision is None && reset ==> exists|plan: CorrectionSchedule, published: bool| #[trigger]
            plans.publishes(timeline, Some(plan), validity, feedback.reset_epoch, published)
                && plan.insert_every_n_frames == 0 && plan.drop_every_n_frames == 0
                && !plan.reanchor,
{
}

/// A reanchor that was committed begins its timeline without history, and publishes for it a plan
/// that changes nothing.
pub proof fn a_committed_reanchor_begins_its_timeline(
    feedback: &mut ValidatedFeedback,
    timeline: u64,
    health: ModelHealth,
    plans: &ValidatedPlanMailbox,
)
    requires
        call_ensures(
            ValidatedFeedback::reanchor_committed,
            (feedback, timeline, health, plans),
            (),
        ),
    ensures
        final(feedback).feedback.timeline == Some(timeline),
        final(feedback).feedback.seen is None,
        old(feedback).feedback.forgotten < u64::MAX ==> final(feedback).feedback.forgotten == old(
            feedback,
        ).feedback.forgotten + 1,
        final(feedback).reset_epoch == old(feedback).reset_epoch,
        exists|plan: CorrectionSchedule, published: bool| #[trigger]
            plans.publishes(
                timeline,
                Some(plan),
                ModelValidity::of(health),
                old(feedback).reset_epoch,
                published,
            ) && plan.insert_every_n_frames == 0 && plan.drop_every_n_frames == 0
                && !plan.reanchor,
{
}

/// A pump from a ledger goes on with the preparation that it has where that is of the present version
/// and knows of every buffer, and begins anew from where the ledger is otherwise. A ledger that could
/// not keep pace publishes nothing.
pub proof fn a_pump_goes_on_from_the_ledger(
    tapes: &mut TapePreparation,
    ledger: &mut SourceLedger,
    gate: &ControlGate,
    count: usize,
    result: Result<bool, ()>,
)
    requires
        call_ensures(TapePreparation::pump_from_ledger, (tapes, ledger, gate, count), result),
    ensures
        result is Err ==> final(tapes).pipe.outgoing().sent() == old(
            tapes,
        ).pipe.outgoing().sent(),
        result matches Ok(published) ==> exists|ready: TapePreparation|
            {
                &&& #[trigger] super::tape::pumped(ready, *final(tapes), count, published)
                &&& ready.pipe == old(tapes).pipe
                &&& ready.revision == Some(final(ledger).next_source_id)
                &&& ready == *old(tapes) || {
                    &&& ready.pending is None
                    &&& ready.source_base == final(ledger).settled
                    &&& ready.source matches Some(source) && source.cursor.source()
                        == final(ledger).source.cursor.source() && source.phase()
                        == final(ledger).source.phase() && source.channels
                        == final(ledger).source.channels && source.rate
                        == final(ledger).source.rate
                }
            },
        final(ledger).next_source_id == old(ledger).next_source_id,
{
    if let Ok(published) = result {
        let ready = choose|ready: TapePreparation| #[trigger]
            super::tape::made_ready(*old(tapes), ready, *final(ledger)) && super::tape::pumped(
                ready,
                *final(tapes),
                count,
                published,
            );
        assert(super::tape::pumped(ready, *final(tapes), count, published));
    }
}

} // verus!
