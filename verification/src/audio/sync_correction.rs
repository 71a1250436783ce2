//! How playback is corrected: by dropping or repeating a frame now and then.
use vstd::prelude::*;

verus! {

/// Drop or repeat one frame in so many. Zero stands for never. A reanchor is not
/// a cadence: it belongs to the source.
#[derive(Clone, Copy, Debug, PartialEq, Eq, Structural)]
pub struct CorrectionSchedule {
    pub insert_every_n_frames: u32,
    pub drop_every_n_frames: u32,
    pub reanchor: bool,
}

/// The schedule that changes nothing.
pub open spec fn steady() -> CorrectionSchedule {
    CorrectionSchedule { insert_every_n_frames: 0, drop_every_n_frames: 0, reanchor: false }
}

impl Default for CorrectionSchedule {
    fn default() -> (schedule: CorrectionSchedule)
        ensures
            schedule == steady(),
    {
        CorrectionSchedule { insert_every_n_frames: 0, drop_every_n_frames: 0, reanchor: false }
    }
}

/// Whether a schedule changes anything.
pub open spec fn correcting(schedule: CorrectionSchedule) -> bool {
    schedule.insert_every_n_frames > 0 || schedule.drop_every_n_frames > 0
}

impl CorrectionSchedule {
    pub fn is_correcting(&self) -> (changes: bool)
        ensures
            changes == correcting(*self),
    {
        self.insert_every_n_frames > 0 || self.drop_every_n_frames > 0
    }
}

/// What is done for one output frame.
#[derive(Clone, Copy, Debug, PartialEq, Eq, Structural)]
pub enum CadenceStep {
    /// The last frame again; nothing is taken from the source.
    Repeat,
    /// The next frame.
    Follow,
    /// The frame after the next.
    Skip,
}

/// The counters of a cadence.
#[derive(Clone, Copy, Debug, PartialEq, Eq, Structural)]
pub struct CadenceCounters {
    pub insert: u32,
    pub drop: u32,
}

/// One less, not below zero.
pub open spec fn lowered(counter: u32) -> u32 {
    if counter == 0 {
        0
    } else {
        (counter - 1) as u32
    }
}

/// The step for one output frame. Counters move only under a measured timestamp.
/// A drop goes before an insert, and an insert does not count on a frame that
/// drops.
pub open spec fn cadence_step(
    schedule: CorrectionSchedule,
    measured: bool,
    counters: CadenceCounters,
) -> (CadenceStep, CadenceCounters) {
    let drops = schedule.drop_every_n_frames > 0;
    let inserts = schedule.insert_every_n_frames > 0;
    let drop = lowered(counters.drop);
    let insert = lowered(counters.insert);
    if !measured {
        (CadenceStep::Follow, counters)
    } else if drops && drop == 0 {
        (CadenceStep::Skip, CadenceCounters { drop: schedule.drop_every_n_frames, ..counters })
    } else {
        let kept = CadenceCounters {
            drop: if drops {
                drop
            } else {
                counters.drop
            },
            ..counters
        };
        if inserts && insert == 0 {
            (CadenceStep::Repeat, CadenceCounters { insert: schedule.insert_every_n_frames, ..kept })
        } else if inserts {
            (CadenceStep::Follow, CadenceCounters { insert, ..kept })
        } else {
            (CadenceStep::Follow, kept)
        }
    }
}

/// Take one cadence step.
pub fn next_cadence_step(
    schedule: CorrectionSchedule,
    measured: bool,
    counters: CadenceCounters,
) -> (next: (CadenceStep, CadenceCounters))
    ensures
        next == cadence_step(schedule, measured, counters),
{
    let mut after = counters;
    if !measured {
        return (CadenceStep::Follow, after);
    }
    if schedule.drop_every_n_frames > 0 {
        after.drop = counters.drop.saturating_sub(1);
        if after.drop == 0 {
            after.drop = schedule.drop_every_n_frames;
            return (CadenceStep::Skip, after);
        }
    }
    if schedule.insert_every_n_frames > 0 {
        after.insert = counters.insert.saturating_sub(1);
        if after.insert == 0 {
            after.insert = schedule.insert_every_n_frames;
            return (CadenceStep::Repeat, after);
        }
    }
    (CadenceStep::Follow, after)
}

/// The counters after a number of measured frames.
pub open spec fn counters_after(
    schedule: CorrectionSchedule,
    counters: CadenceCounters,
    frames: int,
) -> CadenceCounters
    decreases frames,
{
    if frames <= 0 {
        counters
    } else {
        cadence_step(schedule, true, counters_after(schedule, counters, frames - 1)).1
    }
}

/// The step for a measured frame, where so many came before it.
pub open spec fn step_at(
    schedule: CorrectionSchedule,
    counters: CadenceCounters,
    frames: int,
) -> CadenceStep {
    cadence_step(schedule, true, counters_after(schedule, counters, frames)).0
}

/// The frames that a counter counts down to its first step. One that is used up takes its
/// step at once.
pub open spec fn first_due(counter: u32) -> int {
    if counter == 0 {
        1
    } else {
        counter as int
    }
}

/// One more, around a divisor.
proof fn lemma_next_remainder(x: int, n: int)
    requires
        x >= 0,
        n > 0,
    ensures
        (x + 1) % n == if x % n == n - 1 {
            0
        } else {
            x % n + 1
        },
{
    vstd::arithmetic::div_mod::lemma_fundamental_div_mod(x, n);
    let q = x / n;
    let r = x % n;
    if r == n - 1 {
        assert(x + 1 == (q + 1) * n + 0) by (nonlinear_arith)
            requires
                x == n * q + r,
                r == n - 1,
        ;
        vstd::arithmetic::div_mod::lemma_fundamental_div_mod_converse(x + 1, n, q + 1, 0);
    } else {
        assert(x + 1 == q * n + (r + 1)) by (nonlinear_arith)
            requires
                x == n * q + r,
        ;
        vstd::arithmetic::div_mod::lemma_fundamental_div_mod_converse(x + 1, n, q, r + 1);
    }
}

/// A counter that takes its step at `due`, and then every so many, stands here after a
/// number of frames.
spec fn stands_at(counter: u32, every: int, frames: int) -> int {
    let due = first_due(counter);
    if frames < due {
        counter - frames
    } else {
        every - (frames - due) % every
    }
}

/// Whether a counter takes its step on the frame after so many.
spec fn falls_due(counter: u32, every: int, frames: int) -> bool {
    frames + 1 >= first_due(counter) && (frames + 1 - first_due(counter)) % every == 0
}

proof fn lemma_counter_moves(counter: u32, every: int, frames: int)
    requires
        frames >= 0,
        every > 0,
    ensures
        0 <= stands_at(counter, every, frames),
        falls_due(counter, every, frames) <==> stands_at(counter, every, frames) <= 1,
        stands_at(counter, every, frames + 1) == if falls_due(counter, every, frames) {
            every
        } else {
            stands_at(counter, every, frames) - 1
        },
{
    let due = first_due(counter);
    if frames + 1 >= due {
        let x = frames + 1 - due;
        if frames >= due {
            lemma_next_remainder(x - 1, every);
            vstd::arithmetic::div_mod::lemma_fundamental_div_mod(x - 1, every);
        }
        vstd::arithmetic::div_mod::lemma_mod_bound(x, every);
        vstd::arithmetic::div_mod::lemma_small_mod(0, every as nat);
    }
}

proof fn lemma_drop_counter(schedule: CorrectionSchedule, counters: CadenceCounters, frames: int)
    requires
        schedule.drop_every_n_frames > 0,
        0 <= frames,
    ensures
        counters_after(schedule, counters, frames).drop == stands_at(
            counters.drop,
            schedule.drop_every_n_frames as int,
            frames,
        ),
    decreases frames,
{
    if frames > 0 {
        lemma_drop_counter(schedule, counters, frames - 1);
        lemma_counter_moves(counters.drop, schedule.drop_every_n_frames as int, frames - 1);
    }
}

/// The cadence of dropping is exact, for ever: the first drop comes when the counter is
/// counted down, and then every so many measured frames, on those frames and no others.
pub proof fn one_frame_in_so_many_is_dropped(
    schedule: CorrectionSchedule,
    counters: CadenceCounters,
    frames: int,
)
    requires
        schedule.drop_every_n_frames > 0,
        0 <= frames,
    ensures
        step_at(schedule, counters, frames) == CadenceStep::Skip <==> frames + 1 >= first_due(
            counters.drop,
        ) && (frames + 1 - first_due(counters.drop)) % (schedule.drop_every_n_frames as int) == 0,
        counters.drop == schedule.drop_every_n_frames ==> (step_at(schedule, counters, frames)
            == CadenceStep::Skip <==> (frames + 1) % (schedule.drop_every_n_frames as int) == 0),
{
    let n = schedule.drop_every_n_frames as int;
    lemma_drop_counter(schedule, counters, frames);
    lemma_counter_moves(counters.drop, n, frames);
    if counters.drop == schedule.drop_every_n_frames {
        if frames + 1 >= n {
            vstd::arithmetic::div_mod::lemma_mod_sub_multiples_vanish(frames + 1, n);
        } else {
            vstd::arithmetic::div_mod::lemma_small_mod((frames + 1) as nat, n as nat);
        }
    }
}

/// Where nothing is to be dropped, nothing is.
pub proof fn nothing_is_dropped_unasked(
    schedule: CorrectionSchedule,
    measured: bool,
    counters: CadenceCounters,
)
    requires
        schedule.drop_every_n_frames == 0,
    ensures
        cadence_step(schedule, measured, counters).0 != CadenceStep::Skip,
        cadence_step(schedule, measured, counters).1.drop == counters.drop,
{
}

/// Where nothing is to be repeated, nothing is.
pub proof fn nothing_is_repeated_unasked(
    schedule: CorrectionSchedule,
    measured: bool,
    counters: CadenceCounters,
)
    requires
        schedule.insert_every_n_frames == 0,
    ensures
        cadence_step(schedule, measured, counters).0 != CadenceStep::Repeat,
        cadence_step(schedule, measured, counters).1.insert == counters.insert,
{
}

/// The measured frames among so many that drop nothing: on the others an insert does not
/// count.
pub open spec fn undropped(
    schedule: CorrectionSchedule,
    counters: CadenceCounters,
    frames: int,
) -> int
    decreases frames,
{
    if frames <= 0 {
        0
    } else {
        undropped(schedule, counters, frames - 1) + if step_at(schedule, counters, frames - 1)
            == CadenceStep::Skip {
            0int
        } else {
            1
        }
    }
}

proof fn lemma_undropped(schedule: CorrectionSchedule, counters: CadenceCounters, frames: int)
    requires
        0 <= frames,
    ensures
        0 <= undropped(schedule, counters, frames) <= frames,
        schedule.drop_every_n_frames == 0 ==> undropped(schedule, counters, frames) == frames,
    decreases frames,
{
    if frames > 0 {
        lemma_undropped(schedule, counters, frames - 1);
    }
}

proof fn lemma_insert_counter(schedule: CorrectionSchedule, counters: CadenceCounters, frames: int)
    requires
        schedule.insert_every_n_frames > 0,
        0 <= frames,
    ensures
        counters_after(schedule, counters, frames).insert == stands_at(
            counters.insert,
            schedule.insert_every_n_frames as int,
            undropped(schedule, counters, frames),
        ),
    decreases frames,
{
    if frames > 0 {
        lemma_insert_counter(schedule, counters, frames - 1);
        lemma_undropped(schedule, counters, frames - 1);
        lemma_counter_moves(
            counters.insert,
            schedule.insert_every_n_frames as int,
            undropped(schedule, counters, frames - 1),
        );
    }
}

/// The cadence of repeating is exact too, for ever, counted in the measured frames that drop
/// nothing. Where nothing is dropped these are all of them.
pub proof fn one_frame_in_so_many_is_repeated(
    schedule: CorrectionSchedule,
    counters: CadenceCounters,
    frames: int,
)
    requires
        schedule.insert_every_n_frames > 0,
        0 <= frames,
    ensures
        ({
            let counted = undropped(schedule, counters, frames) + 1;
            let due = first_due(counters.insert);
            let every = schedule.insert_every_n_frames as int;
            step_at(schedule, counters, frames) == CadenceStep::Repeat <==> step_at(
                schedule,
                counters,
                frames,
            ) != CadenceStep::Skip && counted >= due && (counted - due) % every == 0
        }),
        schedule.drop_every_n_frames == 0 && counters.insert == schedule.insert_every_n_frames ==> (
        step_at(schedule, counters, frames) == CadenceStep::Repeat <==> (frames + 1) % (
        schedule.insert_every_n_frames as int) == 0),
{
    let n = schedule.insert_every_n_frames as int;
    let counted = undropped(schedule, counters, frames);
    lemma_undropped(schedule, counters, frames);
    lemma_insert_counter(schedule, counters, frames);
    lemma_counter_moves(counters.insert, n, counted);
    if schedule.drop_every_n_frames == 0 && counters.insert == schedule.insert_every_n_frames {
        if frames + 1 >= n {
            vstd::arithmetic::div_mod::lemma_mod_sub_multiples_vanish(frames + 1, n);
        } else {
            vstd::arithmetic::div_mod::lemma_small_mod((frames + 1) as nat, n as nat);
        }
    }
}

/// Without a measured timestamp the cadence stands still.
pub proof fn the_cadence_pauses_without_a_measurement(
    schedule: CorrectionSchedule,
    counters: CadenceCounters,
)
    ensures
        cadence_step(schedule, false, counters) == (CadenceStep::Follow, counters),
{
}

} // verus!
