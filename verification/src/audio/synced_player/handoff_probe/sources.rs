//! What a device for whole sources, a device for spans and a ledger come to.
use super::admission::{caught_up, paced, queued_into, reanchored, told_of, SourceLedger};
use super::bounded::{
    begun_at, consumed_by, given_before, head_claimed, head_gives, head_over, heard, prepared_step,
    sounds_from, HeadTurns, PreparedFrame, PreparedSource, Preparing, SourceDevice,
};
use super::start::{
    arm_word, armed_by, cancel_word, clear_word, decided_by, evaluate_word, evaluated_by,
    gate_phase_says, phase, EvaluateStep, Phase as StartPhase, LAST_VERSIONED,
};
use super::timeline::{turn_read, turns_heard, Phase, Span, SpanTurn};
use crate::audio::synced_player::ingress::control::{ArmStep, Control};
use crate::audio::synced_player::ingress::GateView;
use crate::audio::synced_player::preparation::source_after;
use crate::audio::synced_player::queue::{next_frame, QueuedAudioBuffer};
use crate::audio::synced_player::source::{queued, Pace};
use crate::audio::synced_player::transport::DeviceLane;
use crate::audio::{AudioBuffer, ScheduledArmOutcome, ScheduledStartOutcome, StartState};
use vstd::prelude::*;

verus! {

/// A prepared frame takes its source frames: none repeats the last sample; one plays the next; two
/// leave the next out and play the one after it. Where there is none to play, the last one is
/// heard again. The source frames that are taken are counted, and the source is where as many
/// requests lead.
pub proof fn a_prepared_frame_takes_its_source_frames(p: Preparing, step: usize, rate: int)
    requires
        step <= 2,
    ensures
        ({
            let (after, frame) = prepared_step(p, step, rate);
            let first = next_frame(p.source, 1, rate);
            let second = next_frame(source_after(p.source, 1, 1, rate), 1, rate);
            let plays = if step == 2 {
                second
            } else {
                first
            };
            &&& after.source == source_after(p.source, step as int, 1, rate)
            &&& step > 0 && plays is Some ==> frame.sample == plays->0[0]
            &&& step == 0 || plays is None ==> frame.sample == p.last
            &&& after.last == frame.sample
            &&& step == 0 ==> frame.consumed == 0
            &&& step == 1 ==> frame.consumed == (if first is Some {
                1int
            } else {
                0
            })
            &&& step == 2 ==> frame.consumed == (if first is Some {
                1int
            } else {
                0
            }) + (if second is Some {
                1int
            } else {
                0
            })
        }),
{
    reveal_with_fuel(source_after, 3);
}

/// What a run of prepared frames consumes is the sum of what they do, as far as it can be counted.
pub proof fn a_run_consumes_what_its_frames_do(frames: Seq<PreparedFrame>, from: int, count: int)
    requires
        count >= 0,
    ensures
        consumed_by(frames, from, 0) == 0,
        consumed_by(frames, from, count) + frames[from + count].consumed <= u64::MAX
            ==> consumed_by(frames, from, count + 1) == consumed_by(frames, from, count)
            + frames[from + count].consumed,
        consumed_by(frames, from, count + 1) >= consumed_by(frames, from, count),
{
}

/// A source at the head is played where it is claimed and was not revoked, or wins its claim under
/// an identity of its own. It then gives all frames that it has left, as far as there is room. It
/// is given back once it is used up, or where it is not claimed and another version stands.
pub proof fn a_source_is_played_where_it_is_claimed(
    claimed: bool,
    head: PreparedSource,
    revoked: bool,
    won: bool,
    at: int,
    room: int,
    epoch: u64,
)
    requires
        at >= 0,
        room >= 0,
    ensures
        head_claimed(claimed, head.source, revoked, won) <==> (claimed && !revoked) || (!claimed
            && head.source != 0 && won),
        ({
            let gives = head_gives(claimed, head, revoked, won, at, room);
            &&& gives >= 0 && gives <= room
            &&& !head_claimed(claimed, head.source, revoked, won) ==> gives == 0
            &&& gives > 0 ==> at + gives <= head.frames@.len()
            &&& head_claimed(claimed, head.source, revoked, won) ==> gives == room || at + gives
                >= head.frames@.len()
        }),
        head_over(claimed, head, at, epoch) <==> at >= head.frames@.len() || (!claimed && head.epoch
            != epoch),
{
}

proof fn lemma_heard_at(sources: Seq<PreparedSource>, at: int, counts: Seq<int>, i: int, k: int)
    requires
        0 <= i < counts.len(),
        0 <= k < counts[i],
        forall|j: int| 0 <= j < counts.len() ==> #[trigger] counts[j] >= 0,
    ensures
        0 <= given_before(counts, i) + k < heard(sources, at, counts).len(),
        heard(sources, at, counts).len() == given_before(counts, counts.len() as int),
        heard(sources, at, counts)[given_before(counts, i) + k]
            == sources[i].frames@[begun_at(at, i) + k].sample,
    decreases counts.len(),
{
    let last = counts.len() - 1;
    let fewer = counts.drop_last();
    lemma_heard_length(sources, at, fewer);
    lemma_given_same(fewer, counts, last);
    assert(counts[last] >= 0);
    if i < last {
        assert forall|j: int| 0 <= j < fewer.len() implies #[trigger] fewer[j] >= 0 by {
            assert(fewer[j] == counts[j]);
        }
        lemma_heard_at(sources, at, fewer, i, k);
        lemma_given_same(fewer, counts, i);
    }
}

proof fn lemma_given_same(a: Seq<int>, b: Seq<int>, number: int)
    requires
        0 <= number <= a.len(),
        number <= b.len(),
        forall|i: int| 0 <= i < number ==> a[i] == b[i],
    ensures
        given_before(a, number) == given_before(b, number),
    decreases number,
{
    if number > 0 {
        lemma_given_same(a, b, number - 1);
    }
}

proof fn lemma_heard_length(sources: Seq<PreparedSource>, at: int, counts: Seq<int>)
    requires
        forall|j: int| 0 <= j < counts.len() ==> #[trigger] counts[j] >= 0,
    ensures
        heard(sources, at, counts).len() == given_before(counts, counts.len() as int),
        given_before(counts, counts.len() as int) >= 0,
    decreases counts.len(),
{
    if counts.len() > 0 {
        let fewer = counts.drop_last();
        assert forall|j: int| 0 <= j < fewer.len() implies #[trigger] fewer[j] >= 0 by {
            assert(fewer[j] == counts[j]);
        }
        lemma_heard_length(sources, at, fewer);
        lemma_given_same(fewer, counts, counts.len() - 1);
        assert(counts[counts.len() - 1] >= 0);
    }
}

/// A callback outputs whole sources one after the other: each sample is the next one of its source,
/// from where the device had got to in the first and from the beginning in every other, and what is
/// not filled is silent and counted as missing.
pub proof fn sources_are_heard_one_after_the_other(
    before: SourceDevice,
    after: SourceDevice,
    entered: DeviceLane<PreparedSource>,
    budget: usize,
    turns: HeadTurns,
    output: Seq<i32>,
    missing: int,
    i: int,
    k: int,
)
    requires
        sounds_from(before, after, entered, budget, turns, output, missing),
        0 <= i < turns.counts.len(),
        0 <= k < turns.counts[i],
    ensures
        0 <= given_before(turns.counts, i) + k < output.len() - missing,
        output[given_before(turns.counts, i) + k] == entered.coming()[i].frames@[(if i == 0 {
            entered.at() as int
        } else {
            0
        }) + k].sample,
        0 <= missing <= output.len(),
        forall|x: int| output.len() - missing <= x < output.len() ==> #[trigger] output[x] == 0,
{
    lemma_heard_at(entered.coming(), entered.at() as int, turns.counts, i, k);
}

/// Spans are heard one after the other: what one more span gives is heard behind all before it, and
/// what it lacks is added up.
pub proof fn spans_are_heard_one_after_the_other(
    spans: Seq<Span>,
    turns: Seq<SpanTurn>,
    turn: SpanTurn,
    channels: int,
)
    requires
        turns.len() < spans.len(),
    ensures
        turns_heard(spans, Seq::<SpanTurn>::empty(), channels) == (Seq::<i32>::empty(), 0int),
        ({
            let (heard_before, lacking) = turns_heard(spans, turns, channels);
            let (end, samples) = turn_read(spans[turns.len() as int], turn, channels);
            let (heard_after, lacking_after) = turns_heard(spans, turns.push(turn), channels);
            &&& heard_after.len() == heard_before.len() + samples.len()
            &&& forall|x: int|
                0 <= x < heard_before.len() ==> #[trigger] heard_after[x] == heard_before[x]
            &&& forall|x: int|
                0 <= x < samples.len() ==> heard_after[heard_before.len() + x]
                    == #[trigger] samples[x]
            &&& lacking_after == lacking + end.missing
        }),
{
    assert(turns.push(turn).drop_last() =~= turns);
}

/// A ledger catches up with what was consumed: it plays its source on by exactly the frames that
/// are new, one request for each, and has settled them then. A count that goes back, or that its
/// source has not the frames for, is refused and settles nothing.
pub proof fn a_ledger_catches_up_frame_by_frame(
    before: SourceLedger,
    after: SourceLedger,
    actual: u64,
    told: bool,
    done: bool,
)
    requires
        caught_up(before, after, actual, told, done),
    ensures
        before.owed(actual) matches Some(frames) ==> {
            &&& frames == actual - before.settled
            &&& after.settled == actual
            &&& after.source.cursor.source() == source_after(
                before.source.cursor.source(),
                actual - before.settled,
                before.source.channels as int,
                before.source.rate as int,
            )
            &&& frames == 0 ==> done
        },
        before.owed(actual) is None ==> !done && after.settled == before.settled,
        actual < before.settled ==> before.owed(actual) is None,
        before.owed(actual) is None ==> actual < before.settled || actual - before.settled
            > usize::MAX || exists|i: int|
            0 <= i < actual - before.settled && next_frame(
                #[trigger] source_after(
                    before.source.cursor.source(),
                    i,
                    before.source.channels as int,
                    before.source.rate as int,
                ),
                before.source.channels as int,
                before.source.rate as int,
            ) is None,
{
    if before.owed(actual) is None && actual >= before.settled && actual - before.settled
        <= usize::MAX {
        let i = choose|i: int|
            0 <= i < actual - before.settled && next_frame(
                #[trigger] before.source_played(i),
                before.source.channels as int,
                before.source.rate as int,
            ) is None;
        assert(before.source_played(i) == source_after(
            before.source.cursor.source(),
            i,
            before.source.channels as int,
            before.source.rate as int,
        ));
    }
}

/// A ledger tells the frames that are new, and what is queued once they are played: what is left of
/// the current source and all that is pending, in frames and in buffers.
pub proof fn a_ledger_tells_what_is_queued(ledger: SourceLedger, frames: usize)
    requires
        ledger.countable(),
    ensures
        ({
            let s = ledger.source.cursor.source();
            let told = told_of(ledger, frames);
            let left = match s.current {
                Some(entry) => if s.index < entry.samples.len() {
                    entry.samples.len() - s.index
                } else {
                    0
                },
                None => 0,
            };
            &&& told.0 == frames
            &&& ledger.source.channels > 0 ==> told.1 == left / (ledger.source.channels as int)
                + ledger.source.cursor.pending_frames
            &&& told.2 == s.pending.len() + (if s.current is Some {
                1int
            } else {
                0
            })
        }),
{
    let s = ledger.source.cursor.source();
    if ledger.source.channels > 0 {
        let channels = ledger.source.channels as int;
        let left = s.left();
        assert(left / channels >= 0) by (nonlinear_arith)
            requires
                left >= 0,
                channels > 0,
        ;
    }
}

/// A ledger that follows a publication keeps pace only under an observation. Where a position
/// counts it goes there, if that belongs to its source and the owner was told, and has settled what
/// was consumed up to it. Where none counts it succeeds only if nothing was consumed that is not
/// settled and the observation stood. A failure settles nothing.
pub proof fn a_ledger_keeps_pace_with_what_was_played(
    before: SourceLedger,
    after: SourceLedger,
    pace: Pace,
    read: Phase,
    ok: bool,
)
    requires
        paced(before, after, pace, read, ok),
    ensures
        !pace.observed ==> !ok && after.settled == before.settled,
        before.publication is Some && ok && !pace.counted ==> pace.consumed == before.settled
            && pace.stood && after.settled == before.settled && after.source.cursor.source()
            == before.source.cursor.source(),
        before.publication is Some && ok && pace.counted ==> (pace.read matches Some((
            position,
            frames,
        )) && {
            &&& frames >= before.settled
            &&& after.settled == frames
            &&& pace.told
            &&& after.source.cursor.source().index == position.index
            &&& after.source.cursor.source().cursor_us == position.cursor_us
            &&& after.source.cursor.source().cursor_remainder == position.cursor_remainder
            &&& after.source.cursor.source().retired_through == position.retired_through
            &&& after.source.phase() == read
        }),
        before.publication is Some && !ok ==> after.settled == before.settled,
{
}

/// A timeline is moved to the time that was asked for, and nothing of the source is lost.
pub proof fn a_ledger_moves_its_timeline_to_the_target(
    between: SourceLedger,
    after: SourceLedger,
    cursor_us: i64,
)
    requires
        reanchored(between, after, cursor_us),
    ensures
        after.source.cursor.source().cursor_us == cursor_us,
        after.source.cursor.source().cursor_remainder == 0,
        after.source.cursor.source().order() == between.source.cursor.source().order(),
        after.source.cursor.source().index == between.source.cursor.source().index,
        after.settled == between.settled,
        after.next_source_id == between.next_source_id,
{
}

/// What is queued is what is left of the current source and all that is pending, in frames and in
/// buffers.
pub proof fn what_is_queued_is_counted(
    s: crate::audio::synced_player::queue::Source,
    pending_frames: usize,
    channels: int,
)
    requires
        channels > 0,
    ensures
        s.current is None ==> queued(s, pending_frames, channels) == (
            pending_frames as int,
            s.pending.len() as int,
        ),
        s.current matches Some(entry) ==> queued(s, pending_frames, channels).1 == s.pending.len()
            + 1,
        s.current matches Some(entry) ==> 0 <= s.index <= entry.samples.len() ==> ({
            let frames = queued(s, pending_frames, channels).0 - pending_frames;
            frames * channels <= entry.samples.len() - s.index < (frames + 1) * channels
        }),
{
    match s.current {
        Some(entry) => {
            if 0 <= s.index <= entry.samples.len() {
                let left = entry.samples.len() - s.index;
                let frames = left / channels;
                assert(frames * channels <= left < (frames + 1) * channels) by (nonlinear_arith)
                    requires
                        frames == left / channels,
                        left >= 0,
                        channels > 0,
                ;
            }
        },
        None => {
            assert(0int / channels == 0) by (nonlinear_arith)
                requires
                    channels > 0,
            ;
        },
    }
}

/// An authority is armed only where it is open, neither armed nor won, and has a version left, and
/// takes the next one for it. It is won by what is presented at or after its boundary and by
/// nothing else; cancelled where it is not won; and cleared where it is neither won nor closed.
pub proof fn an_authority_moves_by_its_phase(
    word: u64,
    stored: i64,
    presentation: Option<i64>,
    arms: ArmStep,
    evaluates: EvaluateStep,
    cancels: Option<u64>,
    clears: Option<u64>,
)
    requires
        call_ensures(arm_word, (word, stored), arms),
        call_ensures(evaluate_word, (word, stored, presentation), evaluates),
        call_ensures(cancel_word, (word,), cancels),
        call_ensures(clear_word, (word,), clears),
    ensures
        ({
            let before = phase(word);
            let idle = !before.closed && !before.armed && !before.won;
            let due = presentation matches Some(at) && at >= stored;
            &&& arms is Attempt <==> idle && word <= LAST_VERSIONED
            &&& arms matches ArmStep::Attempt(next) ==> phase(next).armed && !phase(next).won
                && !phase(next).closed && phase(next).version == before.version + 1
            &&& before.closed ==> arms == ArmStep::Done(ScheduledArmOutcome::Closed)
            &&& evaluates is Attempt <==> !before.closed && !before.won && before.armed && due
            &&& evaluates is Confirm <==> !before.closed && !before.won && before.armed && !due
            &&& evaluates matches EvaluateStep::Attempt(next) ==> phase(next).won
                && !phase(next).armed && phase(next).version == before.version
                && phase(next).closed == before.closed
            &&& cancels is None <==> before.won
            &&& cancels matches Some(next) ==> phase(next).closed && phase(next) == (StartPhase {
                closed: true,
                ..before
            })
            &&& clears is Some <==> !before.won && !before.closed && word <= LAST_VERSIONED
            &&& clears matches Some(next) ==> !phase(next).armed && !phase(next).won
                && !phase(next).closed && phase(next).version == before.version + 1
        }),
{
    if word <= LAST_VERSIONED {
        assert((word >> 3) + 1 <= 0x1FFF_FFFF_FFFF_FFFF) by (bit_vector)
            requires
                word <= 0xFFFF_FFFF_FFFF_FFF7u64,
        ;
    }
}

/// An authority answers by its phase and the boundary that it names: a callback wins only from the
/// boundary on, and waits only before it.
pub proof fn an_authority_answers_by_its_boundary(
    word: u64,
    stored: i64,
    presentation: Option<i64>,
    armed: ScheduledArmOutcome,
    result: Result<ScheduledStartOutcome, ()>,
)
    requires
        armed_by(word, stored, armed),
        evaluated_by(word, stored, presentation, result),
    ensures
        armed == ScheduledArmOutcome::Armed ==> !phase(word).closed && !phase(word).armed && !phase(
            word,
        ).won && word <= LAST_VERSIONED,
        armed matches ScheduledArmOutcome::AlreadyArmed { start_at_zone_us } ==> start_at_zone_us
            == stored && phase(word).armed,
        armed matches ScheduledArmOutcome::BoundaryAlreadyWon { start_at_zone_us }
            ==> start_at_zone_us == stored && phase(word).won,
        phase(word).closed ==> armed == ScheduledArmOutcome::Closed && result == Ok::<
            ScheduledStartOutcome,
            (),
        >(ScheduledStartOutcome::Closed),
        result matches Ok(ScheduledStartOutcome::Waiting { start_at_zone_us }) ==> start_at_zone_us
            == stored && phase(word).armed && (presentation matches Some(at) ==> at < stored),
        result matches Ok(ScheduledStartOutcome::BoundaryWon { start_at_zone_us })
            ==> start_at_zone_us == stored && phase(word).armed && (presentation matches Some(at)
            && at >= stored),
        result matches Ok(ScheduledStartOutcome::Started { start_at_zone_us }) ==> start_at_zone_us
            == stored && phase(word).won,
        result == Ok::<ScheduledStartOutcome, ()>(ScheduledStartOutcome::Unscheduled) ==> !phase(
            word,
        ).closed && !phase(word).armed && !phase(word).won,
        result is Err ==> phase(word).armed && !phase(word).closed,
{
}

/// Through the control gate a callback is answered only while it is active, and wins only from the
/// boundary on; the phase that is shown is that of an open gate.
pub proof fn a_decision_is_made_within_a_callback(
    found: GateView,
    stored: i64,
    presentation: Option<i64>,
    result: Result<ScheduledStartOutcome, ()>,
    before: Control,
)
    requires
        decided_by(found, stored, presentation, result),
    ensures
        !found.says().active ==> result is Err,
        result matches Ok(ScheduledStartOutcome::BoundaryWon { start_at_zone_us }) ==> found.says().active
            && found.says().armed && start_at_zone_us == stored && (presentation matches Some(at)
            && at >= stored),
        result matches Ok(ScheduledStartOutcome::Waiting { start_at_zone_us }) ==> start_at_zone_us
            == stored && (presentation matches Some(at) ==> at < stored),
        before.won ==> gate_phase_says(before, stored) == (StartState::BoundaryWon {
            start_at_zone_us: stored,
        }),
        !before.won && before.armed && !before.closed ==> gate_phase_says(before, stored) == (
        StartState::Armed { start_at_zone_us: stored }),
        !before.won && (before.closed || !before.armed) ==> gate_phase_says(before, stored)
            == StartState::Idle,
{
}

/// A buffer that is queued into a ledger gets the next identity, and with it its place among what
/// is pending; nothing else changes.
pub proof fn a_ledger_numbers_its_buffers(
    between: SourceLedger,
    after: SourceLedger,
    buffer: AudioBuffer,
)
    requires
        between.next_source_id < u64::MAX,
        queued_into(between, after, buffer),
    ensures
        after.next_source_id == between.next_source_id + 1,
        after.settled == between.settled,
        after.source.cursor.source() == between.source.cursor.source_with(
            QueuedAudioBuffer { source_id: between.next_source_id, buffer }@,
        ),
{
}

} // verus!
