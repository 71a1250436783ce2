//! The control word: eight flags below a 56-bit version.
//!
//! Every transition of the word that the control gate attempts is computed here, from
//! the word that was read, so that each transition has one exact statement over
//! the decoded word.
use crate::audio::{ScheduledArmOutcome, ScheduledStartOutcome, StartState};
use vstd::prelude::*;

verus! {

pub const EPOCH_SHIFT: u64 = 8;

pub const LOWER_FIELDS: u64 = 255;

pub const CALLBACK_ACTIVE: u64 = 1;

pub const CALLBACK_DIRTY: u64 = 2;

pub const REVOKED_CURRENT: u64 = 4;

pub const REANCHORED_TIMELINE: u64 = 8;

pub const START_ARMED: u64 = 16;

pub const START_WON: u64 = 32;

pub const START_CLOSED: u64 = 64;

/// Set only for the callback that was active at the first close. Later silent
/// callbacks do not postpone a terminal snapshot that is already stable.
pub const CLOSED_CONSUMPTION_PENDING: u64 = 128;

/// The first version that no longer fits above the flags.
pub const EPOCH_LIMIT: u64 = 0x100_0000_0000_0000;

/// What a callback sets on entry.
pub const ENTER_MASK: u64 = 3;

/// What a callback keeps on exit.
pub const LEAVE_MASK: u64 = 0xFFFF_FFFF_FFFF_FF7E;

/// What releasing the current source keeps.
pub const FINISH_MASK: u64 = 0xFFFF_FFFF_FFFF_FFF3;

/// What acknowledging a new timeline keeps.
pub const ACKNOWLEDGE_MASK: u64 = 0xFFFF_FFFF_FFFF_FFF7;

/// The decoded control word.
pub struct Control {
    pub epoch: u64,
    pub active: bool,
    pub dirty: bool,
    pub revoked: bool,
    pub reanchored: bool,
    pub armed: bool,
    pub won: bool,
    pub closed: bool,
    pub pending: bool,
}

/// What a control word says.
pub open spec fn control(word: u64) -> Control {
    Control {
        epoch: word >> 8,
        active: word & 1 != 0,
        dirty: word & 2 != 0,
        revoked: word & 4 != 0,
        reanchored: word & 8 != 0,
        armed: word & 16 != 0,
        won: word & 32 != 0,
        closed: word & 64 != 0,
        pending: word & 128 != 0,
    }
}

/// A control word is nothing but what it says: two words that say the same are
/// the same word.
pub proof fn control_is_injective(a: u64, b: u64)
    requires
        control(a) == control(b),
    ensures
        a == b,
{
    assert(a == b) by (bit_vector)
        requires
            a >> 8 == b >> 8,
            (a & 1 != 0) == (b & 1 != 0),
            (a & 2 != 0) == (b & 2 != 0),
            (a & 4 != 0) == (b & 4 != 0),
            (a & 8 != 0) == (b & 8 != 0),
            (a & 16 != 0) == (b & 16 != 0),
            (a & 32 != 0) == (b & 32 != 0),
            (a & 64 != 0) == (b & 64 != 0),
            (a & 128 != 0) == (b & 128 != 0),
    ;
}

/// A version always fits above the flags.
pub proof fn epoch_is_bounded(word: u64)
    ensures
        control(word).epoch < EPOCH_LIMIT,
{
    assert(word >> 8 < 0x100_0000_0000_0000) by (bit_vector);
}

/// Bits set on entry.
proof fn lemma_entered(word: u64, next: u64)
    requires
        next == word | 3u64,
    ensures
        control(next) == (Control { active: true, dirty: true, ..control(word) }),
{
    assert(next >> 8 == word >> 8
        && ((next & 1 != 0) == (true))
        && ((next & 2 != 0) == (true))
        && ((next & 4 != 0) == (word & 4 != 0))
        && ((next & 8 != 0) == (word & 8 != 0))
        && ((next & 16 != 0) == (word & 16 != 0))
        && ((next & 32 != 0) == (word & 32 != 0))
        && ((next & 64 != 0) == (word & 64 != 0))
        && ((next & 128 != 0) == (word & 128 != 0))) by (bit_vector)
        requires
            next == word | 3u64,
    ;
}

/// Bits cleared on exit.
proof fn lemma_left(word: u64, next: u64)
    requires
        next == word & 0xFFFF_FFFF_FFFF_FF7Eu64,
    ensures
        control(next) == (Control { active: false, pending: false, ..control(word) }),
{
    assert(next >> 8 == word >> 8
        && ((next & 1 != 0) == (false))
        && ((next & 2 != 0) == (word & 2 != 0))
        && ((next & 4 != 0) == (word & 4 != 0))
        && ((next & 8 != 0) == (word & 8 != 0))
        && ((next & 16 != 0) == (word & 16 != 0))
        && ((next & 32 != 0) == (word & 32 != 0))
        && ((next & 64 != 0) == (word & 64 != 0))
        && ((next & 128 != 0) == (false))) by (bit_vector)
        requires
            next == word & 0xFFFF_FFFF_FFFF_FF7Eu64,
    ;
}

/// Bits cleared with the current source.
proof fn lemma_finished(word: u64, next: u64)
    requires
        next == word & 0xFFFF_FFFF_FFFF_FFF3u64,
    ensures
        control(next) == (Control { revoked: false, reanchored: false, ..control(word) }),
{
    assert(next >> 8 == word >> 8
        && ((next & 1 != 0) == (word & 1 != 0))
        && ((next & 2 != 0) == (word & 2 != 0))
        && ((next & 4 != 0) == (false))
        && ((next & 8 != 0) == (false))
        && ((next & 16 != 0) == (word & 16 != 0))
        && ((next & 32 != 0) == (word & 32 != 0))
        && ((next & 64 != 0) == (word & 64 != 0))
        && ((next & 128 != 0) == (word & 128 != 0))) by (bit_vector)
        requires
            next == word & 0xFFFF_FFFF_FFFF_FFF3u64,
    ;
}

/// The bit cleared with a new timeline.
proof fn lemma_acknowledged(word: u64, next: u64)
    requires
        next == word & 0xFFFF_FFFF_FFFF_FFF7u64,
    ensures
        control(next) == (Control { reanchored: false, ..control(word) }),
{
    assert(next >> 8 == word >> 8
        && ((next & 1 != 0) == (word & 1 != 0))
        && ((next & 2 != 0) == (word & 2 != 0))
        && ((next & 4 != 0) == (word & 4 != 0))
        && ((next & 8 != 0) == (false))
        && ((next & 16 != 0) == (word & 16 != 0))
        && ((next & 32 != 0) == (word & 32 != 0))
        && ((next & 64 != 0) == (word & 64 != 0))
        && ((next & 128 != 0) == (word & 128 != 0))) by (bit_vector)
        requires
            next == word & 0xFFFF_FFFF_FFFF_FFF7u64,
    ;
}

/// The bit set on a later close.
pub proof fn lemma_closed(word: u64, next: u64)
    requires
        next == word | 64u64,
    ensures
        control(next) == (Control { closed: true, ..control(word) }),
{
    assert(next >> 8 == word >> 8
        && ((next & 1 != 0) == (word & 1 != 0))
        && ((next & 2 != 0) == (word & 2 != 0))
        && ((next & 4 != 0) == (word & 4 != 0))
        && ((next & 8 != 0) == (word & 8 != 0))
        && ((next & 16 != 0) == (word & 16 != 0))
        && ((next & 32 != 0) == (word & 32 != 0))
        && ((next & 64 != 0) == (true))
        && ((next & 128 != 0) == (word & 128 != 0))) by (bit_vector)
        requires
            next == word | 64u64,
    ;
}

/// Bits set on a first close during a callback.
proof fn lemma_closed_pending(word: u64, next: u64)
    requires
        next == word | 64u64 | 128u64,
    ensures
        control(next) == (Control { closed: true, pending: true, ..control(word) }),
{
    assert(next >> 8 == word >> 8
        && ((next & 1 != 0) == (word & 1 != 0))
        && ((next & 2 != 0) == (word & 2 != 0))
        && ((next & 4 != 0) == (word & 4 != 0))
        && ((next & 8 != 0) == (word & 8 != 0))
        && ((next & 16 != 0) == (word & 16 != 0))
        && ((next & 32 != 0) == (word & 32 != 0))
        && ((next & 64 != 0) == (true))
        && ((next & 128 != 0) == (true))) by (bit_vector)
        requires
            next == word | 64u64 | 128u64,
    ;
}

/// The bit cleared by an observation.
proof fn lemma_observed(word: u64, next: u64)
    requires
        next == word & !2u64,
    ensures
        control(next) == (Control { dirty: false, ..control(word) }),
{
    assert(next >> 8 == word >> 8
        && ((next & 1 != 0) == (word & 1 != 0))
        && ((next & 2 != 0) == (false))
        && ((next & 4 != 0) == (word & 4 != 0))
        && ((next & 8 != 0) == (word & 8 != 0))
        && ((next & 16 != 0) == (word & 16 != 0))
        && ((next & 32 != 0) == (word & 32 != 0))
        && ((next & 64 != 0) == (word & 64 != 0))
        && ((next & 128 != 0) == (word & 128 != 0))) by (bit_vector)
        requires
            next == word & !2u64,
    ;
}

/// Bits changed by a claim.
proof fn lemma_claimed(word: u64, next: u64)
    requires
        next == (word & !4u64) | 2u64,
    ensures
        control(next) == (Control { revoked: false, dirty: true, ..control(word) }),
{
    assert(next >> 8 == word >> 8
        && ((next & 1 != 0) == (word & 1 != 0))
        && ((next & 2 != 0) == (true))
        && ((next & 4 != 0) == (false))
        && ((next & 8 != 0) == (word & 8 != 0))
        && ((next & 16 != 0) == (word & 16 != 0))
        && ((next & 32 != 0) == (word & 32 != 0))
        && ((next & 64 != 0) == (word & 64 != 0))
        && ((next & 128 != 0) == (word & 128 != 0))) by (bit_vector)
        requires
            next == (word & !4u64) | 2u64,
    ;
}

/// The bit set by arming.
proof fn lemma_armed(word: u64, next: u64)
    requires
        next == word | 16u64,
    ensures
        control(next) == (Control { armed: true, ..control(word) }),
{
    assert(next >> 8 == word >> 8
        && ((next & 1 != 0) == (word & 1 != 0))
        && ((next & 2 != 0) == (word & 2 != 0))
        && ((next & 4 != 0) == (word & 4 != 0))
        && ((next & 8 != 0) == (word & 8 != 0))
        && ((next & 16 != 0) == (true))
        && ((next & 32 != 0) == (word & 32 != 0))
        && ((next & 64 != 0) == (word & 64 != 0))
        && ((next & 128 != 0) == (word & 128 != 0))) by (bit_vector)
        requires
            next == word | 16u64,
    ;
}

/// The bit cleared by disarming.
proof fn lemma_disarmed(word: u64, next: u64)
    requires
        next == word & !16u64,
    ensures
        control(next) == (Control { armed: false, ..control(word) }),
{
    assert(next >> 8 == word >> 8
        && ((next & 1 != 0) == (word & 1 != 0))
        && ((next & 2 != 0) == (word & 2 != 0))
        && ((next & 4 != 0) == (word & 4 != 0))
        && ((next & 8 != 0) == (word & 8 != 0))
        && ((next & 16 != 0) == (false))
        && ((next & 32 != 0) == (word & 32 != 0))
        && ((next & 64 != 0) == (word & 64 != 0))
        && ((next & 128 != 0) == (word & 128 != 0))) by (bit_vector)
        requires
            next == word & !16u64,
    ;
}

/// Bits changed by winning.
proof fn lemma_won(word: u64, next: u64)
    requires
        next == (word & !16u64) | 32u64,
    ensures
        control(next) == (Control { armed: false, won: true, ..control(word) }),
{
    assert(next >> 8 == word >> 8
        && ((next & 1 != 0) == (word & 1 != 0))
        && ((next & 2 != 0) == (word & 2 != 0))
        && ((next & 4 != 0) == (word & 4 != 0))
        && ((next & 8 != 0) == (word & 8 != 0))
        && ((next & 16 != 0) == (false))
        && ((next & 32 != 0) == (true))
        && ((next & 64 != 0) == (word & 64 != 0))
        && ((next & 128 != 0) == (word & 128 != 0))) by (bit_vector)
        requires
            next == (word & !16u64) | 32u64,
    ;
}

/// The flags of a word below a new version.
proof fn lemma_versioned(flags: u64, version: u64, next: u64)
    requires
        flags <= 255,
        version < EPOCH_LIMIT,
        next == (version << 8) | flags,
    ensures
        control(next) == (Control { epoch: version, ..control(flags) }),
{
    assert(next >> 8 == version
        && ((next & 1 != 0) == (flags & 1 != 0))
        && ((next & 2 != 0) == (flags & 2 != 0))
        && ((next & 4 != 0) == (flags & 4 != 0))
        && ((next & 8 != 0) == (flags & 8 != 0))
        && ((next & 16 != 0) == (flags & 16 != 0))
        && ((next & 32 != 0) == (flags & 32 != 0))
        && ((next & 64 != 0) == (flags & 64 != 0))
        && ((next & 128 != 0) == (flags & 128 != 0))
    ) by (bit_vector)
        requires
            flags <= 255,
            version < 0x100_0000_0000_0000u64,
            next == (version << 8) | flags,
    ;
}

/// The flags of a word, alone.
proof fn lemma_flags(word: u64, next: u64)
    requires
        next == word & 255u64,
    ensures
        next <= 255,
        control(next) == (Control { epoch: 0, ..control(word) }),
{
    assert(next <= 255 && next >> 8 == 0
        && ((next & 1 != 0) == (word & 1 != 0))
        && ((next & 2 != 0) == (word & 2 != 0))
        && ((next & 4 != 0) == (word & 4 != 0))
        && ((next & 8 != 0) == (word & 8 != 0))
        && ((next & 16 != 0) == (word & 16 != 0))
        && ((next & 32 != 0) == (word & 32 != 0))
        && ((next & 64 != 0) == (word & 64 != 0))
        && ((next & 128 != 0) == (word & 128 != 0))
    ) by (bit_vector)
        requires
            next == word & 255u64,
    ;
}

/// A notice is a flag of its own.
proof fn lemma_noticed(word: u64, next: u64, notice: u64)
    requires
        word <= 255,
        notice == 0 || notice == REVOKED_CURRENT || notice == REANCHORED_TIMELINE,
        next == word | notice,
    ensures
        next <= 255,
        control(next) == (Control {
            revoked: control(word).revoked || notice == REVOKED_CURRENT,
            reanchored: control(word).reanchored || notice == REANCHORED_TIMELINE,
            ..control(word)
        }),
{
    assert(next <= 255 && next >> 8 == word >> 8
        && ((next & 1 != 0) == (word & 1 != 0))
        && ((next & 2 != 0) == (word & 2 != 0))
        && ((next & 4 != 0) == (word & 4 != 0 || notice == 4))
        && ((next & 8 != 0) == (word & 8 != 0 || notice == 8))
        && ((next & 16 != 0) == (word & 16 != 0))
        && ((next & 32 != 0) == (word & 32 != 0))
        && ((next & 64 != 0) == (word & 64 != 0))
        && ((next & 128 != 0) == (word & 128 != 0))
    ) by (bit_vector)
        requires
            word <= 255,
            notice == 0 || notice == 4 || notice == 8,
            next == word | notice,
    ;
}

/// The word of a version in which nothing has happened.
pub fn version_control(epoch: u64) -> (word: u64)
    requires
        epoch < EPOCH_LIMIT,
    ensures
        control(word) == (Control {
            epoch,
            active: false,
            dirty: false,
            revoked: false,
            reanchored: false,
            armed: false,
            won: false,
            closed: false,
            pending: false,
        }),
{
    let word: u64 = epoch << 8;
    assert(word >> 8 == epoch && word & 1 == 0 && word & 2 == 0 && word & 4 == 0 && word & 8 == 0
        && word & 16 == 0 && word & 32 == 0 && word & 64 == 0 && word & 128 == 0) by (bit_vector)
        requires
            epoch < 0x100_0000_0000_0000u64,
            word == epoch << 8,
    ;
    word
}

/// Whether a word says that a callback is active.
pub fn is_active(word: u64) -> (active: bool)
    ensures
        active == control(word).active,
{
    word & CALLBACK_ACTIVE != 0
}

/// Whether a word says that the callback which was active at the close may still consume.
pub fn is_pending(word: u64) -> (pending: bool)
    ensures
        pending == control(word).pending,
{
    word & CLOSED_CONSUMPTION_PENDING != 0
}

/// The word once a callback has entered.
pub open spec fn entered(word: u64) -> u64 {
    word | ENTER_MASK
}

/// The word once a callback has left.
pub open spec fn left(word: u64) -> u64 {
    word & LEAVE_MASK
}

/// The word once the current source is released.
pub open spec fn finished(word: u64) -> u64 {
    word & FINISH_MASK
}

/// The word once a new timeline is acknowledged.
pub open spec fn acknowledged(word: u64) -> u64 {
    word & ACKNOWLEDGE_MASK
}

/// What the four masked transitions change, and that they change nothing else.
pub proof fn masks_say(word: u64)
    ensures
        control(entered(word)) == (Control { active: true, dirty: true, ..control(word) }),
        control(left(word)) == (Control { active: false, pending: false, ..control(word) }),
        control(finished(word)) == (Control { revoked: false, reanchored: false, ..control(word) }),
        control(acknowledged(word)) == (Control { reanchored: false, ..control(word) }),
{
    lemma_entered(word, entered(word));
    lemma_left(word, left(word));
    lemma_finished(word, finished(word));
    lemma_acknowledged(word, acknowledged(word));
}

/// Closing admission: the start phase stays, and a callback that is active at
/// the first close is marked as the one that may still consume.
pub open spec fn closed_says(before: Control) -> Control {
    Control { closed: true, pending: before.pending || (!before.closed && before.active), ..before }
}

pub fn closed_control(word: u64) -> (next: u64)
    ensures
        control(next) == closed_says(control(word)),
{
    if word & START_CLOSED == 0 && word & CALLBACK_ACTIVE != 0 {
        let next: u64 = word | START_CLOSED | CLOSED_CONSUMPTION_PENDING;
        proof {
            lemma_closed_pending(word, next);
        }
        next
    } else {
        let next: u64 = word | START_CLOSED;
        proof {
            lemma_closed(word, next);
        }
        next
    }
}

/// Cancelling a start that has not been won: closed, and no longer armed. A
/// start that has been won is not cancelled.
pub open spec fn cancelled_says(before: Control) -> Option<Control> {
    if before.won {
        None
    } else {
        Some(Control { armed: false, ..closed_says(before) })
    }
}

pub fn cancelled_control(word: u64) -> (next: Option<u64>)
    ensures
        match next {
            Some(next) => cancelled_says(control(word)) == Some(control(next)),
            None => cancelled_says(control(word)) is None,
        },
{
    if word & START_WON != 0 {
        None
    } else {
        let closed: u64 = closed_control(word);
        let next: u64 = closed & !START_ARMED;
        proof {
            lemma_disarmed(closed, next);
        }
        Some(next)
    }
}

/// What an observation leaves behind: nothing while a callback is active, else
/// the same word without its trace of past callbacks.
pub fn observed_control(word: u64) -> (next: Option<u64>)
    ensures
        match next {
            Some(next) => !control(word).active && control(next) == (Control {
                dirty: false,
                ..control(word)
            }),
            None => control(word).active,
        },
{
    if word & CALLBACK_ACTIVE != 0 {
        None
    } else {
        let next: u64 = word & !CALLBACK_DIRTY;
        proof {
            lemma_observed(word, next);
        }
        Some(next)
    }
}

/// Claiming a source: only in the version it was published for, and only while
/// no source is current.
pub fn claimed_control(word: u64, current: u64, published_epoch: u64) -> (next: Option<u64>)
    ensures
        match next {
            Some(next) => control(word).epoch == published_epoch && current == 0 && control(next)
                == (Control { revoked: false, dirty: true, ..control(word) }),
            None => control(word).epoch != published_epoch || current != 0,
        },
{
    if word >> EPOCH_SHIFT != published_epoch || current != 0 {
        None
    } else {
        let next: u64 = (word & !REVOKED_CURRENT) | CALLBACK_DIRTY;
        proof {
            lemma_claimed(word, next);
        }
        Some(next)
    }
}

/// What a committed transaction does to the source that was current.
#[derive(Clone, Copy, Debug, PartialEq, Eq, Structural)]
pub enum Notice {
    /// The source was replaced behind the device's position.
    Replaced,
    /// The timeline was moved.
    Reanchored,
    /// Everything was cleared.
    Cleared,
}

/// A committed transaction takes the next version and leaves its notice. Only a
/// clear disarms, and only a start that has not been won.
pub open spec fn committed_says(before: Control, notice: Notice) -> Option<Control> {
    if before.epoch + 1 >= EPOCH_LIMIT {
        None
    } else {
        Some(
            Control {
                epoch: (before.epoch + 1) as u64,
                revoked: before.revoked || notice == Notice::Cleared,
                reanchored: before.reanchored || notice == Notice::Reanchored,
                armed: before.armed && (notice != Notice::Cleared || before.won),
                ..before
            },
        )
    }
}

/// `None` once the versions of a scope are used up: a version is never reused.
pub fn committed_control(word: u64, notice: Notice) -> (next: Option<u64>)
    ensures
        match next {
            Some(next) => committed_says(control(word), notice) == Some(control(next)),
            None => committed_says(control(word), notice) is None,
        },
{
    let epoch: u64 = word >> EPOCH_SHIFT;
    proof {
        epoch_is_bounded(word);
    }
    if epoch + 1 >= EPOCH_LIMIT {
        return None;
    }
    let mask: u64 = match notice {
        Notice::Replaced => 0,
        Notice::Reanchored => REANCHORED_TIMELINE,
        Notice::Cleared => REVOKED_CURRENT,
    };
    let kept: u64 = word & LOWER_FIELDS;
    let noticed: u64 = kept | mask;
    proof {
        lemma_flags(word, kept);
        lemma_noticed(kept, noticed, mask);
    }
    let clears: bool = match notice {
        Notice::Cleared => true,
        _ => false,
    };
    let flags: u64 = if clears && noticed & START_WON == 0 {
        let disarmed: u64 = noticed & !START_ARMED;
        proof {
            lemma_disarmed(noticed, disarmed);
            lemma_flags_stay_small(noticed, disarmed);
        }
        disarmed
    } else {
        noticed
    };
    let next: u64 = ((epoch + 1) << EPOCH_SHIFT) | flags;
    proof {
        lemma_versioned(flags, (epoch + 1) as u64, next);
    }
    Some(next)
}

/// Clearing a bit of a small word leaves it small.
proof fn lemma_flags_stay_small(word: u64, next: u64)
    requires
        word <= 255,
        next == word & !16u64,
    ensures
        next <= 255,
{
    assert(next <= 255) by (bit_vector)
        requires
            word <= 255,
            next == word & !16u64,
    ;
}

/// What a request to arm meets, from the word that was read and the boundary
/// that is stored.
#[derive(Clone, Copy, Debug, PartialEq, Eq, Structural)]
pub enum ArmStep {
    /// The answer is settled; nothing is written.
    Done(ScheduledArmOutcome),
    /// A callback is active; the owner asks again.
    Busy,
    /// The new boundary is stored and this word is attempted.
    Attempt(u64),
}

pub open spec fn arm_says(before: Control, stored: i64, step: ArmStep) -> bool {
    if before.closed {
        step == ArmStep::Done(ScheduledArmOutcome::Closed)
    } else if before.active {
        step == ArmStep::Busy
    } else if before.won {
        step == ArmStep::Done(ScheduledArmOutcome::BoundaryAlreadyWon { start_at_zone_us: stored })
    } else if before.armed {
        step == ArmStep::Done(ScheduledArmOutcome::AlreadyArmed { start_at_zone_us: stored })
    } else {
        step matches ArmStep::Attempt(next) && control(next) == (Control { armed: true, ..before })
    }
}

/// What a request to arm is answered from the word and the boundary that it finds. An
/// attempt that another one defeats is asked for again.
pub open spec fn arm_answers(
    before: Control,
    stored: i64,
    result: Result<ScheduledArmOutcome, ()>,
) -> bool {
    if before.closed {
        result == Ok::<ScheduledArmOutcome, ()>(ScheduledArmOutcome::Closed)
    } else if before.active {
        result is Err
    } else if before.won {
        result == Ok::<ScheduledArmOutcome, ()>(
            ScheduledArmOutcome::BoundaryAlreadyWon { start_at_zone_us: stored },
        )
    } else if before.armed {
        result == Ok::<ScheduledArmOutcome, ()>(
            ScheduledArmOutcome::AlreadyArmed { start_at_zone_us: stored },
        )
    } else {
        result is Err || result == Ok::<ScheduledArmOutcome, ()>(ScheduledArmOutcome::Armed)
    }
}

pub fn arm_step(word: u64, stored: i64) -> (step: ArmStep)
    ensures
        arm_says(control(word), stored, step),
{
    if word & START_CLOSED != 0 {
        return ArmStep::Done(ScheduledArmOutcome::Closed);
    }
    if word & CALLBACK_ACTIVE != 0 {
        return ArmStep::Busy;
    }
    if word & START_WON != 0 {
        return ArmStep::Done(ScheduledArmOutcome::BoundaryAlreadyWon { start_at_zone_us: stored });
    }
    if word & START_ARMED != 0 {
        return ArmStep::Done(ScheduledArmOutcome::AlreadyArmed { start_at_zone_us: stored });
    }
    let next: u64 = word | START_ARMED;
    proof {
        lemma_armed(word, next);
    }
    ArmStep::Attempt(next)
}

/// The phase that a word shows: closing admission does not hide it.
pub open spec fn phase_says(before: Control, stored: i64) -> StartState {
    if before.won {
        StartState::BoundaryWon { start_at_zone_us: stored }
    } else if before.armed {
        StartState::Armed { start_at_zone_us: stored }
    } else {
        StartState::Idle
    }
}

pub fn start_phase(word: u64, stored: i64) -> (phase: StartState)
    ensures
        phase == phase_says(control(word), stored),
{
    if word & START_WON != 0 {
        StartState::BoundaryWon { start_at_zone_us: stored }
    } else if word & START_ARMED != 0 {
        StartState::Armed { start_at_zone_us: stored }
    } else {
        StartState::Idle
    }
}

/// What a callback meets when it asks whether it may start.
#[derive(Clone, Copy, Debug, PartialEq, Eq, Structural)]
pub enum StartStep {
    /// The answer is settled; nothing is written.
    Done(ScheduledStartOutcome),
    /// The boundary is reached and this word is attempted.
    Attempt(u64),
}

pub open spec fn reached(presentation: Option<i64>, stored: i64) -> bool {
    presentation matches Some(at) && at >= stored
}

/// What a callback is answered from the word and the boundary that it finds. Only a close
/// or a cancel defeats its attempt.
pub open spec fn start_answers(
    before: Control,
    stored: i64,
    presentation: Option<i64>,
    outcome: ScheduledStartOutcome,
) -> bool {
    if before.closed {
        outcome == ScheduledStartOutcome::Closed
    } else if before.won {
        outcome == (ScheduledStartOutcome::Started { start_at_zone_us: stored })
    } else if !before.armed {
        outcome == ScheduledStartOutcome::Unscheduled
    } else if !reached(presentation, stored) {
        outcome == (ScheduledStartOutcome::Waiting { start_at_zone_us: stored })
    } else {
        outcome == (ScheduledStartOutcome::BoundaryWon { start_at_zone_us: stored }) || outcome
            == ScheduledStartOutcome::Closed
    }
}

pub open spec fn start_says(
    before: Control,
    stored: i64,
    presentation: Option<i64>,
    step: StartStep,
) -> bool {
    if before.closed {
        step == StartStep::Done(ScheduledStartOutcome::Closed)
    } else if before.won {
        step == StartStep::Done(ScheduledStartOutcome::Started { start_at_zone_us: stored })
    } else if !before.armed {
        step == StartStep::Done(ScheduledStartOutcome::Unscheduled)
    } else if !reached(presentation, stored) {
        step == StartStep::Done(ScheduledStartOutcome::Waiting { start_at_zone_us: stored })
    } else {
        step matches StartStep::Attempt(next) && control(next) == (Control {
            armed: false,
            won: true,
            ..before
        })
    }
}

pub fn start_step(word: u64, stored: i64, presentation: Option<i64>) -> (step: StartStep)
    ensures
        start_says(control(word), stored, presentation, step),
{
    if word & START_CLOSED != 0 {
        return StartStep::Done(ScheduledStartOutcome::Closed);
    }
    if word & START_WON != 0 {
        return StartStep::Done(ScheduledStartOutcome::Started { start_at_zone_us: stored });
    }
    if word & START_ARMED == 0 {
        return StartStep::Done(ScheduledStartOutcome::Unscheduled);
    }
    let due: bool = match presentation {
        Some(at) => at >= stored,
        None => false,
    };
    if !due {
        return StartStep::Done(ScheduledStartOutcome::Waiting { start_at_zone_us: stored });
    }
    let next: u64 = (word & !START_ARMED) | START_WON;
    proof {
        lemma_won(word, next);
    }
    StartStep::Attempt(next)
}

/// The word of a scope that nobody has touched says nothing.
pub proof fn zero_says_nothing()
    ensures
        control(0) == (Control {
            epoch: 0,
            active: false,
            dirty: false,
            revoked: false,
            reanchored: false,
            armed: false,
            won: false,
            closed: false,
            pending: false,
        }),
{
    assert(0u64 >> 8 == 0 && 0u64 & 1 == 0 && 0u64 & 2 == 0 && 0u64 & 4 == 0 && 0u64 & 8 == 0
        && 0u64 & 16 == 0 && 0u64 & 32 == 0 && 0u64 & 64 == 0 && 0u64 & 128 == 0) by (bit_vector);
}

} // verus!
