//! The preparation worker and the device's own state, between their clocks and
//! the shared memory.
use super::revision::{
    is_published, next_revisions, reads_find_the_last_fill, revisions_after, stands, writes,
    Published, Write,
};
use super::shared::{
    began_reading, began_writing, ended_reading, ended_writing, got_i64, got_u32, got_u64, got_u8,
    made_u32, made_u64, made_u8, put_i64, put_u32, put_u64, put_u8,
};
use crate::sync::raw_clock::{instant_ns, lasts};
use std::sync::atomic::{AtomicI64, AtomicU32, AtomicU64, AtomicU8, Ordering};
use std::time::{Duration, Instant};
use vstd::prelude::*;

verus! {

pub const WINDOWS: usize = 4;

pub const OBSERVATIONS: usize = 64;

/// No instant, one at or after an origin, or one before it.
pub const ABSENT: u8 = 0;

pub const AT_OR_AFTER: u8 = 1;

pub const BEFORE: u8 = 2;

/// An instant relative to an origin, in words. Full magnitudes are kept.
#[derive(Clone, Copy, Debug, PartialEq, Eq, Structural)]
pub struct InstantWords {
    pub kind: u8,
    pub seconds: u64,
    pub nanos: u32,
}

/// Whether words can stand for an instant at all.
pub open spec fn stands_for_some(words: InstantWords) -> bool {
    (words.kind == AT_OR_AFTER || words.kind == BEFORE) && words.nanos < 1_000_000_000
}

/// How far from the origin the instant lies that words stand for, in nanoseconds.
pub open spec fn offset_ns(words: InstantWords) -> int {
    let magnitude = words.seconds * 1_000_000_000 + words.nanos;
    if words.kind == AT_OR_AFTER {
        magnitude
    } else {
        -magnitude
    }
}

/// The words of an instant: how far it lies from the origin, and on which side.
pub open spec fn instant_written(
    origin: Instant,
    value: Option<Instant>,
    words: InstantWords,
) -> bool {
    match value {
        None => words == (InstantWords { kind: ABSENT, seconds: 0, nanos: 0 }),
        Some(instant) => stands_for_some(words) && (words.kind == AT_OR_AFTER <==> instant_ns(
            instant,
        ) >= instant_ns(origin)) && offset_ns(words) == instant_ns(instant) - instant_ns(origin),
    }
}

/// The instant that words stand for. `None` where they stand for none, or where there
/// is no instant that far from the origin.
pub open spec fn instant_read(
    origin: Instant,
    words: InstantWords,
    value: Option<Instant>,
) -> bool {
    if stands_for_some(words) {
        forall|t: Instant|
            value == Some(t) <==> #[trigger] instant_ns(t) == instant_ns(origin) + offset_ns(words)
    } else {
        value is None
    }
}

pub fn encode_instant(origin: Instant, value: Option<Instant>) -> (words: InstantWords)
    ensures
        instant_written(origin, value, words),
{
    match value {
        None => InstantWords { kind: ABSENT, seconds: 0, nanos: 0 },
        Some(value) => match value.checked_duration_since(origin) {
            Some(after) => InstantWords {
                kind: AT_OR_AFTER,
                seconds: after.as_secs(),
                nanos: after.subsec_nanos(),
            },
            None => {
                let before = origin.duration_since(value);
                InstantWords {
                    kind: BEFORE,
                    seconds: before.as_secs(),
                    nanos: before.subsec_nanos(),
                }
            },
        },
    }
}

pub fn decode_instant(origin: Instant, words: InstantWords) -> (instant: Option<Instant>)
    ensures
        instant_read(origin, words, instant),
{
    if words.nanos >= 1_000_000_000 {
        return None;
    }
    let duration = Duration::new(words.seconds, words.nanos);
    proof {
        let ns = words.seconds * 1_000_000_000 + words.nanos;
        assert(ns / 1_000_000_000 == words.seconds && ns % 1_000_000_000 == words.nanos);
        assert(lasts(duration, ns));
    }
    if words.kind == AT_OR_AFTER {
        origin.checked_add(duration)
    } else if words.kind == BEFORE {
        origin.checked_sub(duration)
    } else {
        None
    }
}

/// An instant comes back to the nanosecond, whichever side of the origin it lies on.
pub proof fn an_instant_comes_back(
    origin: Instant,
    written: Option<Instant>,
    words: InstantWords,
    read: Option<Instant>,
)
    requires
        instant_written(origin, written, words),
        instant_read(origin, words, read),
    ensures
        read == written,
{
    if let Some(instant) = written {
        assert(instant_ns(instant) == instant_ns(origin) + offset_ns(words));
    }
}

/// The cells of an instant.
#[derive(Debug)]
struct AtomicInstant {
    kind: AtomicU8,
    seconds: AtomicU64,
    nanos: AtomicU32,
}

impl AtomicInstant {
    /// The words were stored.
    closed spec fn stores(&self, words: InstantWords) -> bool {
        &&& put_u64(self.seconds, words.seconds)
        &&& put_u32(self.nanos, words.nanos)
        &&& put_u8(self.kind, words.kind)
    }

    /// The words were read.
    closed spec fn reads(&self, words: InstantWords) -> bool {
        &&& got_u64(self.seconds, words.seconds)
        &&& got_u32(self.nanos, words.nanos)
        &&& got_u8(self.kind, words.kind)
    }

    fn new() -> (cells: AtomicInstant)
        ensures
            made_u8(cells.kind, 0) && made_u64(cells.seconds, 0) && made_u32(cells.nanos, 0),
    {
        AtomicInstant {
            kind: AtomicU8::new(0),
            seconds: AtomicU64::new(0),
            nanos: AtomicU32::new(0),
        }
    }

    fn store(&self, words: InstantWords)
        ensures
            self.stores(words),
    {
        self.seconds.store(words.seconds, Ordering::Relaxed);
        self.nanos.store(words.nanos, Ordering::Relaxed);
        self.kind.store(words.kind, Ordering::Relaxed);
    }

    fn load(&self) -> (words: InstantWords)
        ensures
            self.reads(words),
    {
        let seconds: u64 = self.seconds.load(Ordering::Relaxed);
        let nanos: u32 = self.nanos.load(Ordering::Relaxed);
        let kind: u8 = self.kind.load(Ordering::Relaxed);
        InstantWords { kind, seconds, nanos }
    }
}

/// What the worker tells the device about time.
#[derive(Clone, Copy, Debug)]
pub struct Timing {
    pub epoch: u64,
    pub generation: u64,
    pub delay_us: u64,
    pub expected: Option<Instant>,
    pub boundary: i64,
    pub boundary_deadline: Option<Instant>,
    pub valid_until: Option<Instant>,
    pub valid: bool,
    pub pending: bool,
}

/// The two flags of a timing in one word.
pub open spec fn flags_word(valid: bool, pending: bool) -> u8 {
    (if valid {
        1u8
    } else {
        0
    }) | (if pending {
        2u8
    } else {
        0
    })
}

pub fn pack_flags(valid: bool, pending: bool) -> (flags: u8)
    ensures
        flags == flags_word(valid, pending),
{
    let low: u8 = if valid {
        1
    } else {
        0
    };
    let high: u8 = if pending {
        2
    } else {
        0
    };
    low | high
}

pub fn unpack_flags(flags: u8) -> (both: (bool, bool))
    ensures
        both == (flags & 1 != 0, flags & 2 != 0),
{
    (flags & 1 != 0, flags & 2 != 0)
}

/// Flags come back as they were packed.
pub proof fn flags_come_back(valid: bool, pending: bool)
    ensures
        (flags_word(valid, pending) & 1 != 0) == valid,
        (flags_word(valid, pending) & 2 != 0) == pending,
{
    assert((0u8 | 0) & 1 == 0 && (0u8 | 0) & 2 == 0 && (1u8 | 0) & 1 != 0 && (1u8 | 0) & 2 == 0
        && (0u8 | 2) & 1 == 0 && (0u8 | 2) & 2 != 0 && (1u8 | 2) & 1 != 0 && (1u8 | 2) & 2 != 0)
        by (bit_vector);
}

/// A timing in words.
#[derive(Clone, Copy, Debug, PartialEq, Eq, Structural)]
pub struct TimingWords {
    pub epoch: u64,
    pub generation: u64,
    pub delay_us: u64,
    pub expected: InstantWords,
    pub boundary: i64,
    pub boundary_deadline: InstantWords,
    pub valid_until: InstantWords,
    pub flags: u8,
}

/// Words as they are written for a timing.
pub open spec fn timing_written(origin: Instant, value: Timing, words: TimingWords) -> bool {
    &&& words.epoch == value.epoch
    &&& words.generation == value.generation
    &&& words.delay_us == value.delay_us
    &&& words.boundary == value.boundary
    &&& words.flags == flags_word(value.valid, value.pending)
    &&& instant_written(origin, value.expected, words.expected)
    &&& instant_written(origin, value.boundary_deadline, words.boundary_deadline)
    &&& instant_written(origin, value.valid_until, words.valid_until)
}

/// A timing as it is read from words.
pub open spec fn timing_read(origin: Instant, words: TimingWords, value: Timing) -> bool {
    &&& value.epoch == words.epoch
    &&& value.generation == words.generation
    &&& value.delay_us == words.delay_us
    &&& value.boundary == words.boundary
    &&& (value.valid, value.pending) == (words.flags & 1 != 0, words.flags & 2 != 0)
    &&& instant_read(origin, words.expected, value.expected)
    &&& instant_read(origin, words.boundary_deadline, value.boundary_deadline)
    &&& instant_read(origin, words.valid_until, value.valid_until)
}

pub fn encode_timing(origin: Instant, value: Timing) -> (words: TimingWords)
    ensures
        timing_written(origin, value, words),
{
    TimingWords {
        epoch: value.epoch,
        generation: value.generation,
        delay_us: value.delay_us,
        expected: encode_instant(origin, value.expected),
        boundary: value.boundary,
        boundary_deadline: encode_instant(origin, value.boundary_deadline),
        valid_until: encode_instant(origin, value.valid_until),
        flags: pack_flags(value.valid, value.pending),
    }
}

pub fn decode_timing(origin: Instant, words: TimingWords) -> (value: Timing)
    ensures
        timing_read(origin, words, value),
{
    let (valid, pending): (bool, bool) = unpack_flags(words.flags);
    Timing {
        epoch: words.epoch,
        generation: words.generation,
        delay_us: words.delay_us,
        expected: decode_instant(origin, words.expected),
        boundary: words.boundary,
        boundary_deadline: decode_instant(origin, words.boundary_deadline),
        valid_until: decode_instant(origin, words.valid_until),
        valid,
        pending,
    }
}

/// A timing comes back as it was written, its instants to the nanosecond.
pub proof fn a_timing_comes_back(
    origin: Instant,
    written: Timing,
    words: TimingWords,
    read: Timing,
)
    requires
        timing_written(origin, written, words),
        timing_read(origin, words, read),
    ensures
        read == written,
{
    flags_come_back(written.valid, written.pending);
    an_instant_comes_back(origin, written.expected, words.expected, read.expected);
    an_instant_comes_back(
        origin,
        written.boundary_deadline,
        words.boundary_deadline,
        read.boundary_deadline,
    );
    an_instant_comes_back(origin, written.valid_until, words.valid_until, read.valid_until);
}

/// What is found in a mailbox: the timing that its words stand for, as long as one is
/// published and the revision was the same before and after they were read.
pub open spec fn timing_found(
    origin: Instant,
    before: u64,
    words: TimingWords,
    after: u64,
    timing: Option<Timing>,
) -> bool {
    &&& timing is Some <==> stands(before) && after == before
    &&& timing matches Some(value) ==> timing_read(origin, words, value)
}

pub fn find_timing(origin: Instant, before: u64, words: TimingWords, after: u64) -> (timing: Option<
    Timing,
>)
    ensures
        timing_found(origin, before, words, after, timing),
{
    if is_published(before) && after == before {
        Some(decode_timing(origin, words))
    } else {
        None
    }
}

/// A read gives back the timing that was last published, to the nanosecond: whenever it
/// finds the memory as the writer left it, and the same even revision before and after.
pub proof fn a_published_timing_is_found(
    origin: Instant,
    states: Seq<Published<TimingWords>>,
    steps: Seq<Write<TimingWords>>,
    fill: int,
    read: int,
    written: Timing,
    found: Option<Timing>,
)
    requires
        writes(states, steps),
        0 <= fill < read < states.len(),
        steps[fill] matches Write::Fill { cells } && timing_written(origin, written, cells),
        forall|i: int| fill < i < read ==> !(#[trigger] steps[i] is Fill),
        stands(states[read].revision),
        timing_found(
            origin,
            states[read].revision,
            states[read].cells,
            states[read].revision,
            found,
        ),
    ensures
        found == Some(written),
{
    reads_find_the_last_fill(states, steps, fill, read);
    a_timing_comes_back(origin, written, states[read].cells, found->0);
}

/// Nothing is found before anything is published.
pub proof fn nothing_is_found_at_first(
    origin: Instant,
    words: TimingWords,
    after: u64,
    found: Option<Timing>,
)
    requires
        timing_found(origin, 0, words, after, found),
    ensures
        found is None,
{
}

/// One timing at a time, from the worker to the device.
#[derive(Debug)]
pub struct TimingMailbox {
    origin: Instant,
    revision: AtomicU64,
    epoch: AtomicU64,
    generation: AtomicU64,
    delay_us: AtomicU64,
    expected: AtomicInstant,
    boundary: AtomicI64,
    boundary_deadline: AtomicInstant,
    valid_until: AtomicInstant,
    flags: AtomicU8,
}

impl TimingMailbox {
    /// The instant that instants are told from.
    pub closed spec fn counts_from(&self) -> Instant {
        self.origin
    }

    /// Nothing is published yet.
    pub closed spec fn is_fresh(&self) -> bool {
        made_u64(self.revision, 0)
    }

    /// The words of a timing were stored.
    pub closed spec fn stores(&self, words: TimingWords) -> bool {
        &&& put_u64(self.epoch, words.epoch)
        &&& put_u64(self.generation, words.generation)
        &&& put_u64(self.delay_us, words.delay_us)
        &&& self.expected.stores(words.expected)
        &&& put_i64(self.boundary, words.boundary)
        &&& self.boundary_deadline.stores(words.boundary_deadline)
        &&& self.valid_until.stores(words.valid_until)
        &&& put_u8(self.flags, words.flags)
    }

    /// The words of a timing were read.
    pub closed spec fn reads(&self, words: TimingWords) -> bool {
        &&& got_u64(self.epoch, words.epoch)
        &&& got_u64(self.generation, words.generation)
        &&& got_u64(self.delay_us, words.delay_us)
        &&& self.expected.reads(words.expected)
        &&& got_i64(self.boundary, words.boundary)
        &&& self.boundary_deadline.reads(words.boundary_deadline)
        &&& self.valid_until.reads(words.valid_until)
        &&& got_u8(self.flags, words.flags)
    }

    pub closed spec fn reads_revision(&self, revision: u64) -> bool {
        got_u64(self.revision, revision)
    }

    /// The revision that stands while something is written was set.
    pub closed spec fn opens_revision(&self, writing: u64) -> bool {
        began_writing(self.revision, writing)
    }

    /// The revision that stands once something is written was set.
    pub closed spec fn closes_revision(&self, written: u64) -> bool {
        ended_writing(self.revision, written)
    }

    /// A reading was begun under a revision, and ended under one.
    pub closed spec fn spans_revisions(&self, before: u64, after: u64) -> bool {
        &&& began_reading(self.revision, before)
        &&& ended_reading(self.revision, after)
    }

    /// A timing was to be published, and whether it was: its words were stored between two
    /// revisions, unless those are used up.
    pub open spec fn publishes(&self, value: Timing, published: bool) -> bool {
        exists|revision: u64| #[trigger]
            self.reads_revision(revision) && match next_revisions(revision) {
                Some((writing, written)) => {
                    &&& published
                    &&& self.opens_revision(writing)
                    &&& self.closes_revision(written)
                    &&& exists|words: TimingWords| #[trigger]
                        self.stores(words) && timing_written(self.counts_from(), value, words)
                },
                None => !published,
            }
    }

    /// A timing was to be read, and what was found.
    pub open spec fn gives(&self, timing: Option<Timing>) -> bool {
        exists|before: u64, words: TimingWords, after: u64|
            {
                &&& #[trigger] self.reads(words)
                &&& self.spans_revisions(before, after)
                &&& #[trigger] timing_found(self.counts_from(), before, words, after, timing)
            }
    }

    pub fn new() -> (mailbox: TimingMailbox)
        ensures
            mailbox.is_fresh(),
            call_ensures(Instant::now, (), mailbox.counts_from()),
    {
        TimingMailbox {
            origin: Instant::now(),
            revision: AtomicU64::new(0),
            epoch: AtomicU64::new(0),
            generation: AtomicU64::new(0),
            delay_us: AtomicU64::new(0),
            expected: AtomicInstant::new(),
            boundary: AtomicI64::new(0),
            boundary_deadline: AtomicInstant::new(),
            valid_until: AtomicInstant::new(),
            flags: AtomicU8::new(0),
        }
    }

    /// Publish a timing. There is one writer. `false` where the revisions of the
    /// scope are used up; the last timing then stands.
    pub fn publish(&self, value: Timing) -> (published: bool)
        ensures
            self.publishes(value, published),
    {
        let revision: u64 = self.revision.load(Ordering::Relaxed);
        assert(self.reads_revision(revision));
        let (writing, written): (u64, u64) = match revisions_after(revision) {
            Some(next) => next,
            None => {
                return false;
            },
        };
        self.revision.store(writing, Ordering::Relaxed);
        std::sync::atomic::fence(Ordering::Release);
        let words = encode_timing(self.origin, value);
        self.epoch.store(words.epoch, Ordering::Relaxed);
        self.generation.store(words.generation, Ordering::Relaxed);
        self.delay_us.store(words.delay_us, Ordering::Relaxed);
        self.expected.store(words.expected);
        self.boundary.store(words.boundary, Ordering::Relaxed);
        self.boundary_deadline.store(words.boundary_deadline);
        self.valid_until.store(words.valid_until);
        self.flags.store(words.flags, Ordering::Relaxed);
        self.revision.store(written, Ordering::Release);
        assert(self.stores(words));
        true
    }

    /// One try to read. `None` where nothing is published, or where the writer
    /// was at work.
    pub fn read(&self) -> (timing: Option<Timing>)
        ensures
            self.gives(timing),
    {
        let before: u64 = self.revision.load(Ordering::Acquire);
        let words = TimingWords {
            epoch: self.epoch.load(Ordering::Relaxed),
            generation: self.generation.load(Ordering::Relaxed),
            delay_us: self.delay_us.load(Ordering::Relaxed),
            expected: self.expected.load(),
            boundary: self.boundary.load(Ordering::Relaxed),
            boundary_deadline: self.boundary_deadline.load(),
            valid_until: self.valid_until.load(),
            flags: self.flags.load(Ordering::Relaxed),
        };
        std::sync::atomic::fence(Ordering::Acquire);
        let after: u64 = self.revision.load(Ordering::Relaxed);
        let timing = find_timing(self.origin, before, words, after);
        assert(self.reads(words) && self.spans_revisions(before, after)
            && timing_found(self.counts_from(), before, words, after, timing));
        timing
    }
}

} // verus!
