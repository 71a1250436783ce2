//! A monotonic time source for clock synchronization, and the bridge between its
//! microseconds and `Instant`.
use std::time::{Duration, Instant};
use vstd::prelude::*;

verus! {

#[verifier::external_type_specification]
#[verifier::external_body]
pub struct ExInstant(std::time::Instant);

/// `Instant::now`. Nothing is claimed of the time it gives.
pub assume_specification[ std::time::Instant::now ]() -> Instant;

/// What `Duration::new` gives: so many whole seconds and nanoseconds.
pub uninterp spec fn duration_of(secs: u64, nanos: u32) -> Duration;

/// Where an instant lies on the system's timeline, in nanoseconds from a point that
/// nothing depends on. It is what `Instant` tells of itself through the distances
/// between instants.
pub uninterp spec fn instant_ns(instant: Instant) -> int;

/// A duration is so many nanoseconds long.
pub open spec fn lasts(duration: Duration, ns: int) -> bool {
    &&& 0 <= ns < (u64::MAX + 1) * 1_000_000_000
    &&& duration == duration_of((ns / 1_000_000_000) as u64, (ns % 1_000_000_000) as u32)
}

/// `Instant::checked_add`: the instant that lies the duration later, and `None` where
/// there is no such instant. Which instants there are is left unsaid: it is up to the
/// system.
pub assume_specification[ std::time::Instant::checked_add ](
    instant: &Instant,
    duration: Duration,
) -> (sum: Option<Instant>)
    ensures
        forall|t: Instant, ns: int|
            #![trigger instant_ns(t), lasts(duration, ns)]
            lasts(duration, ns) ==> (sum == Some(t) <==> instant_ns(t) == instant_ns(*instant)
                + ns),
;

/// `Instant::checked_sub`: the instant that lies the duration earlier, and `None` where
/// there is no such instant. Which instants there are is left unsaid, as above.
pub assume_specification[ std::time::Instant::checked_sub ](
    instant: &Instant,
    duration: Duration,
) -> (difference: Option<Instant>)
    ensures
        forall|t: Instant, ns: int|
            #![trigger instant_ns(t), lasts(duration, ns)]
            lasts(duration, ns) ==> (difference == Some(t) <==> instant_ns(t) == instant_ns(
                *instant,
            ) - ns),
;

/// `Instant::checked_duration_since`: the time from one instant to this one, and `None`
/// where the other is the later one.
pub assume_specification[ std::time::Instant::checked_duration_since ](
    instant: &Instant,
    earlier: Instant,
) -> (duration: Option<Duration>)
    ensures
        duration is Some <==> instant_ns(*instant) >= instant_ns(earlier),
        duration matches Some(d) ==> lasts(d, instant_ns(*instant) - instant_ns(earlier)),
;

/// `Instant::duration_since`: the time from one instant to this one, and none at all
/// where the other is the later one.
pub assume_specification[ std::time::Instant::duration_since ](
    instant: &Instant,
    earlier: Instant,
) -> (duration: Duration)
    ensures
        lasts(
            duration,
            if instant_ns(*instant) >= instant_ns(earlier) {
                instant_ns(*instant) - instant_ns(earlier)
            } else {
                0
            },
        ),
;

/// `Duration::new`. It panics where nanoseconds carry over into more seconds than
/// there can be, so they may not carry over.
pub assume_specification[ core::time::Duration::new ](secs: u64, nanos: u32) -> (duration: Duration)
    requires
        nanos < 1_000_000_000,
    ensures
        duration == duration_of(secs, nanos),
;

/// `Duration::as_secs`: the whole seconds of a duration.
pub assume_specification[ core::time::Duration::as_secs ](duration: &Duration) -> (secs: u64)
    ensures
        forall|s: u64, n: u32|
            n < 1_000_000_000 && *duration == #[trigger] duration_of(s, n) ==> secs == s,
;

/// `Duration::subsec_nanos`: the nanoseconds of a duration beyond its whole
/// seconds, always less than a second.
pub assume_specification[ core::time::Duration::subsec_nanos ](duration: &Duration) -> (nanos: u32)
    ensures
        nanos < 1_000_000_000,
        forall|s: u64, n: u32|
            n < 1_000_000_000 && *duration == #[trigger] duration_of(s, n) ==> nanos == n,
;

/// `Duration::from_micros`: so many microseconds.
pub assume_specification[ core::time::Duration::from_micros ](micros: u64) -> (duration: Duration)
    ensures
        duration == duration_of(
            (micros as int / 1_000_000) as u64,
            (micros as int % 1_000_000 * 1_000) as u32,
        ),
;

/// `Duration::from_nanos`: so many nanoseconds.
pub assume_specification[ core::time::Duration::from_nanos ](nanos: u64) -> (duration: Duration)
    ensures
        duration == duration_of(
            (nanos as int / 1_000_000_000) as u64,
            (nanos as int % 1_000_000_000) as u32,
        ),
;

/// `Duration::as_micros`: the whole microseconds of a duration.
pub assume_specification[ core::time::Duration::as_micros ](duration: &Duration) -> (micros: u128)
    ensures
        forall|s: u64, n: u32|
            n < 1_000_000_000 && *duration == #[trigger] duration_of(s, n) ==> micros == s
                * 1_000_000 + n as int / 1_000,
;

/// How far a time lies from now: whether it is ahead, and by how many
/// microseconds.
#[derive(Clone, Copy, Debug, PartialEq, Eq, Structural)]
pub struct Offset {
    pub ahead: bool,
    pub micros: u64,
}

/// The signed distance that an offset stands for.
pub open spec fn distance(offset: Offset) -> int {
    if offset.ahead {
        offset.micros as int
    } else {
        -(offset.micros as int)
    }
}

/// The offset of a clock time from now. Every two clock times have one: their
/// distance always fits.
pub fn offset_from_now(micros: i64, now_micros: i64) -> (offset: Offset)
    ensures
        distance(offset) == micros - now_micros,
        offset.ahead == (micros >= now_micros),
{
    let delta: i128 = micros as i128 - now_micros as i128;
    if delta >= 0 {
        Offset { ahead: true, micros: delta as u64 }
    } else {
        Offset { ahead: false, micros: (-delta) as u64 }
    }
}

/// The nearest time that a clock can tell.
pub open spec fn told(time: int) -> i64 {
    if time > i64::MAX {
        i64::MAX
    } else if time < i64::MIN {
        i64::MIN
    } else {
        time as i64
    }
}

/// The clock time that lies a distance ahead of now, or behind it. Where no clock
/// time can tell it, the result is the first or the last one that there is.
pub fn micros_at(now_micros: i64, ahead: bool, magnitude: u128) -> (micros: i64)
    ensures
        micros == told(
            if ahead {
                now_micros + magnitude
            } else {
                now_micros - magnitude
            },
        ),
{
    // No distance of this size can be told from any clock time.
    if magnitude > 0x1_0000_0000_0000_0000 {
        return if ahead {
            i64::MAX
        } else {
            i64::MIN
        };
    }
    let time: i128 = if ahead {
        now_micros as i128 + magnitude as i128
    } else {
        now_micros as i128 - magnitude as i128
    };
    if time > i64::MAX as i128 {
        i64::MAX
    } else if time < i64::MIN as i128 {
        i64::MIN
    } else {
        time as i64
    }
}

/// The instant of a clock time, told from what the clock and the system read at one
/// moment: it lies as far from the one now as the clock time from the other. `None`
/// where there is no such instant.
pub open spec fn bridged(
    micros: i64,
    now_micros: i64,
    now_instant: Instant,
    instant: Option<Instant>,
) -> bool {
    forall|t: Instant|
        instant == Some(t) <==> #[trigger] instant_ns(t) == instant_ns(now_instant) + (micros
            - now_micros) * 1_000
}

pub fn instant_at(micros: i64, now_micros: i64, now_instant: Instant) -> (instant: Option<Instant>)
    ensures
        bridged(micros, now_micros, now_instant, instant),
{
    let offset = offset_from_now(micros, now_micros);
    let duration = Duration::from_micros(offset.micros);
    proof {
        let ns = offset.micros * 1_000;
        assert(ns / 1_000_000_000 == offset.micros as int / 1_000_000);
        assert(ns % 1_000_000_000 == offset.micros as int % 1_000_000 * 1_000);
        assert(lasts(duration, ns));
    }
    if offset.ahead {
        now_instant.checked_add(duration)
    } else {
        now_instant.checked_sub(duration)
    }
}

/// The clock time of an instant, told from what the clock and the system read at one
/// moment. Parts of a microsecond are dropped towards the past, on either side of now.
pub open spec fn time_of(instant: Instant, now_micros: i64, now_instant: Instant) -> int {
    now_micros + (instant_ns(instant) - instant_ns(now_instant)) / 1_000
}

/// The same, as far as a clock can tell it.
pub open spec fn clock_time(instant: Instant, now_micros: i64, now_instant: Instant) -> i64 {
    told(time_of(instant, now_micros, now_instant))
}

pub fn micros_of(instant: Instant, now_micros: i64, now_instant: Instant) -> (micros: i64)
    ensures
        micros == clock_time(instant, now_micros, now_instant),
{
    match instant.checked_duration_since(now_instant) {
        Some(ahead) => {
            let whole: u128 = ahead.as_micros();
            proof {
                lemma_whole_micros(instant_ns(instant) - instant_ns(now_instant));
            }
            micros_at(now_micros, true, whole)
        },
        None => {
            let behind = now_instant.duration_since(instant);
            let begun: u128 = if behind.subsec_nanos() % 1_000 != 0 {
                1
            } else {
                0
            };
            let whole: u128 = behind.as_micros();
            proof {
                let ns = instant_ns(now_instant) - instant_ns(instant);
                lemma_whole_micros(ns);
                assert((-ns) / 1_000 == -(ns / 1_000 + if ns % 1_000 != 0 {
                    1int
                } else {
                    0
                }));
            }
            micros_at(now_micros, false, whole + begun)
        },
    }
}

/// Whole microseconds, counted over seconds and nanoseconds.
pub(crate) proof fn lemma_whole_micros(ns: int)
    requires
        ns >= 0,
    ensures
        ns / 1_000_000_000 * 1_000_000 + ns % 1_000_000_000 / 1_000 == ns / 1_000,
        ns % 1_000_000_000 % 1_000 == ns % 1_000,
{
}

/// The bridge loses nothing: read against the same now, a clock time taken over
/// and back is itself.
pub proof fn the_bridge_is_exact(
    micros: i64,
    now_micros: i64,
    now_instant: Instant,
    instant: Instant,
)
    requires
        bridged(micros, now_micros, now_instant, Some(instant)),
    ensures
        clock_time(instant, now_micros, now_instant) == micros,
{
    assert(instant_ns(instant) == instant_ns(now_instant) + (micros - now_micros) * 1_000);
}

/// Taken over at one moment and back at another, a clock time is off by no more than
/// how differently the two clocks went in between, and by less than a microsecond
/// besides. The distances are in nanoseconds, and the clock can tell the time that
/// comes back.
pub proof fn the_bridge_comes_back(
    micros: i64,
    first: (i64, Instant),
    instant: Instant,
    second: (i64, Instant),
    back: i64,
)
    requires
        bridged(micros, first.0, first.1, Some(instant)),
        back == clock_time(instant, second.0, second.1),
        i64::MIN <= time_of(instant, second.0, second.1) <= i64::MAX,
    ensures
        ({
            let apart = (second.0 - first.0) * 1_000 - (instant_ns(second.1) - instant_ns(
                first.1,
            ));
            let off = if apart < 0 {
                -apart
            } else {
                apart
            };
            &&& apart - 1_000 < (back - micros) * 1_000 <= apart
            &&& -(off + 1_000) < (back - micros) * 1_000 < off + 1_000
        }),
{
    assert(instant_ns(instant) == instant_ns(first.1) + (micros - first.0) * 1_000);
}

/// The time that the bridge tells of an instant is never later than the true one, and
/// less than a microsecond earlier.
pub proof fn the_bridge_rounds_to_the_past(
    instant: Instant,
    now_micros: i64,
    now_instant: Instant,
)
    requires
        i64::MIN <= time_of(instant, now_micros, now_instant) <= i64::MAX,
    ensures
        ({
            let exact = now_micros * 1_000 + instant_ns(instant) - instant_ns(now_instant);
            -1_000 < clock_time(instant, now_micros, now_instant) * 1_000 - exact <= 0
        }),
{
}

/// The microseconds of a reading in seconds and nanoseconds, as the system's raw
/// clock gives it.
pub fn reading_micros(seconds: i64, nanos: i64) -> (micros: i64)
    requires
        0 <= nanos < 1_000_000_000,
        i64::MIN <= seconds * 1_000_000 <= i64::MAX - 1_000_000,
    ensures
        micros == seconds * 1_000_000 + nanos / 1_000,
{
    seconds * 1_000_000 + nanos / 1_000
}

/// A count of microseconds as a clock time, as far as one can tell it.
pub fn elapsed_micros(micros: u128) -> (time: i64)
    ensures
        time == told(micros as int),
{
    if micros > i64::MAX as u128 {
        i64::MAX
    } else {
        micros as i64
    }
}

/// A monotonic time source.
///
/// Successive readings do not decrease. A source that is compared with another
/// clock is not conditioned: its rate is not adjusted from outside.
pub trait Clock: Send + Sync + 'static {
    /// Microseconds from an epoch of the clock's own.
    fn now_micros(&self) -> i64;

    /// The instant of a clock time, by one reading of this clock and of the system's.
    /// `None` where it cannot be represented, as for times before the epoch of
    /// `Instant`.
    fn micros_to_instant(&self, micros: i64) -> (instant: Option<Instant>)
        default_ensures
            exists|now_micros: i64, now_instant: Instant|
                call_ensures(Self::now_micros, (self,), now_micros) && call_ensures(
                    Instant::now,
                    (),
                    now_instant,
                ) && #[trigger] bridged(
                    micros,
                    now_micros,
                    now_instant,
                    instant,
                ),
    {
        let now_micros: i64 = self.now_micros();
        let now_instant = Instant::now();
        instant_at(micros, now_micros, now_instant)
    }

    /// The clock time of an instant, by one reading of this clock and of the system's.
    /// Parts of a microsecond are dropped towards the past. It saturates where the
    /// clock cannot tell it.
    fn instant_to_micros(&self, instant: Instant) -> (micros: i64)
        default_ensures
            exists|now_micros: i64, now_instant: Instant|
                call_ensures(Self::now_micros, (self,), now_micros) && call_ensures(
                    Instant::now,
                    (),
                    now_instant,
                ) && micros
                    == #[trigger] clock_time(instant, now_micros, now_instant),
    {
        let now_micros: i64 = self.now_micros();
        let now_instant = Instant::now();
        micros_of(instant, now_micros, now_instant)
    }
}

/// A clock that counts from its own making, by the clock of `Instant`. That one is not
/// adjusted on macOS and Windows. On Linux it is: there the system's raw clock is read
/// instead, as `system_micros` says.
#[derive(Debug)]
pub struct DefaultClock {
    epoch: Instant,
}

/// What a clock reads that counts from one instant, at another: the whole microseconds
/// in between, and none before it began.
pub open spec fn counted(epoch: Instant, now: Instant) -> i64 {
    told(
        if instant_ns(now) >= instant_ns(epoch) {
            (instant_ns(now) - instant_ns(epoch)) / 1_000
        } else {
            0
        },
    )
}

/// What is read of a clock that counts from one instant, at another.
pub fn count_from(epoch: Instant, now: Instant) -> (micros: i64)
    ensures
        micros == counted(epoch, now),
{
    let elapsed = now.duration_since(epoch);
    proof {
        if instant_ns(now) >= instant_ns(epoch) {
            lemma_whole_micros(instant_ns(now) - instant_ns(epoch));
        }
    }
    elapsed_micros(elapsed.as_micros())
}

/// A reading never falls behind an earlier one, where the system's clock does not.
pub proof fn readings_do_not_decrease(epoch: Instant, first: Instant, second: Instant)
    requires
        instant_ns(first) <= instant_ns(second),
    ensures
        counted(epoch, first) <= counted(epoch, second),
{
}

impl DefaultClock {
    /// The instant that the clock counts from.
    pub closed spec fn began(&self) -> Instant {
        self.epoch
    }

    /// A clock that counts from now.
    pub fn new() -> (clock: DefaultClock)
        ensures
            call_ensures(Instant::now, (), clock.began()),
    {
        DefaultClock { epoch: Instant::now() }
    }
}

impl Default for DefaultClock {
    fn default() -> (clock: DefaultClock)
        ensures
            call_ensures(Instant::now, (), clock.began()),
    {
        DefaultClock::new()
    }
}

impl Clock for DefaultClock {
    fn now_micros(&self) -> (micros: i64)
        ensures
            micros >= 0,
            exists|now: Instant|
                call_ensures(Instant::now, (), now) && micros == #[trigger] counted(
                    self.began(),
                    now,
                ),
    {
        let now = Instant::now();
        let micros: i64 = count_from(self.epoch, now);
        assert(micros == counted(self.began(), now));
        micros
    }
}

/// The reading of the clock that is not adjusted, where there is one, else that of the
/// adjusted one, else the epoch. Each is in seconds and nanoseconds.
pub open spec fn chosen(raw: Option<(i64, i64)>, adjusted: Option<(i64, i64)>) -> (i64, i64) {
    match (raw, adjusted) {
        (Some(first), _) => first,
        (None, Some(second)) => second,
        (None, None) => (0i64, 0i64),
    }
}

pub fn chosen_reading(raw: Option<(i64, i64)>, adjusted: Option<(i64, i64)>) -> (reading: (
    i64,
    i64,
))
    ensures
        reading == chosen(raw, adjusted),
{
    match raw {
        Some(reading) => reading,
        None => match adjusted {
            Some(reading) => reading,
            None => (0, 0),
        },
    }
}

/// The microseconds of a system that has a clock which is not adjusted, from what reading
/// that clock and the adjusted one came to. The adjusted one counts only where the other
/// failed, and where both did the clock is at its epoch.
pub fn system_micros(raw: Option<(i64, i64)>, adjusted: Option<(i64, i64)>) -> (micros: i64)
    requires
        0 <= chosen(raw, adjusted).1 < 1_000_000_000,
        i64::MIN <= chosen(raw, adjusted).0 * 1_000_000 <= i64::MAX - 1_000_000,
    ensures
        micros == chosen(raw, adjusted).0 * 1_000_000 + chosen(raw, adjusted).1 / 1_000,
        raw is None && adjusted is None ==> micros == 0,
{
    let (seconds, nanos): (i64, i64) = chosen_reading(raw, adjusted);
    reading_micros(seconds, nanos)
}

/// A clock tells a time that it can hold as it is, and every other one as the nearest that it
/// can.
pub proof fn a_clock_tells_the_nearest_time(time: int)
    ensures
        i64::MIN <= time <= i64::MAX ==> told(time) == time,
        time > i64::MAX ==> told(time) == 0x7FFF_FFFF_FFFF_FFFF,
        time < i64::MIN ==> told(time) == -0x8000_0000_0000_0000,
{
}

/// Clock times so many microseconds apart are instants a thousand times as many nanoseconds
/// apart, on either side of now, and the present one is now.
pub proof fn the_bridge_keeps_distances(
    a: i64,
    b: i64,
    now_micros: i64,
    now_instant: Instant,
    first: Option<Instant>,
    second: Option<Instant>,
)
    requires
        call_ensures(instant_at, (a, now_micros, now_instant), first),
        call_ensures(instant_at, (b, now_micros, now_instant), second),
    ensures
        first matches Some(s) ==> (second matches Some(t) ==> instant_ns(t) - instant_ns(s) == (b
            - a) * 1_000),
        first matches Some(s) ==> instant_ns(s) - instant_ns(now_instant) == (a - now_micros)
            * 1_000,
        a == now_micros ==> first == Some(now_instant),
        first is None ==> forall|t: Instant| #[trigger]
            instant_ns(t) != instant_ns(now_instant) + (a - now_micros) * 1_000,
{
    assert(bridged(a, now_micros, now_instant, first));
    assert(bridged(b, now_micros, now_instant, second));
    if let Some(s) = first {
        assert(instant_ns(s) == instant_ns(now_instant) + (a - now_micros) * 1_000);
    }
    if let Some(t) = second {
        assert(instant_ns(t) == instant_ns(now_instant) + (b - now_micros) * 1_000);
    }
    if a == now_micros {
        assert(instant_ns(now_instant) == instant_ns(now_instant) + (a - now_micros) * 1_000);
    }
}

/// A later instant is never told as an earlier time, and the present one is told as now.
pub proof fn the_bridge_keeps_the_order(
    first: Instant,
    second: Instant,
    now_micros: i64,
    now_instant: Instant,
    a: i64,
    b: i64,
)
    requires
        call_ensures(micros_of, (first, now_micros, now_instant), a),
        call_ensures(micros_of, (second, now_micros, now_instant), b),
        instant_ns(first) <= instant_ns(second),
    ensures
        a <= b,
        instant_ns(first) == instant_ns(now_instant) ==> a == now_micros,
{
}

/// A clock that counts from its making tells the whole microseconds since then, and nothing
/// before it.
pub proof fn a_clock_counts_from_its_making(epoch: Instant, now: Instant, micros: i64)
    requires
        call_ensures(count_from, (epoch, now), micros),
    ensures
        micros >= 0,
        instant_ns(now) <= instant_ns(epoch) ==> micros == 0,
        instant_ns(now) >= instant_ns(epoch) && micros < i64::MAX ==> micros * 1_000 <= instant_ns(
            now,
        ) - instant_ns(epoch) < (micros + 1) * 1_000,
        instant_ns(now) >= instant_ns(epoch) && micros == i64::MAX ==> micros * 1_000 <= instant_ns(
            now,
        ) - instant_ns(epoch),
{
}

/// A system's clock tells what the clock that is not adjusted reads, to the microsecond, else what
/// the adjusted one does, else its epoch.
pub proof fn a_system_is_read_by_its_unadjusted_clock(
    raw: Option<(i64, i64)>,
    adjusted: Option<(i64, i64)>,
    micros: i64,
)
    requires
        call_ensures(system_micros, (raw, adjusted), micros),
    ensures
        raw matches Some((seconds, nanos)) ==> 0 <= nanos ==> (micros * 1_000 <= seconds
            * 1_000_000_000 + nanos < (micros + 1) * 1_000),
        raw is None ==> (adjusted matches Some((seconds, nanos)) ==> 0 <= nanos ==> (micros * 1_000
            <= seconds * 1_000_000_000 + nanos < (micros + 1) * 1_000)),
        raw is None && adjusted is None ==> micros == 0,
{
}

} // verus!
