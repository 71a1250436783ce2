//! What queueing and playing a source comes to, told of the buffers themselves.
use super::queue::{
    admitted, consumed, in_order, kept, lemma_div_bound, lemma_frame_fits, lemma_kept_in_order,
    lemma_slot, lemma_total_insert, next_frame, pushed, slot, stale_frames,
    the_cursor_does_not_drift, total_frames, Entry, Source,
};
use vstd::prelude::*;

verus! {

/// When a buffer ends: after its frames, each of the length that its rate gives it.
pub open spec fn ends_at(entry: Entry) -> int {
    entry.timestamp + if entry.rate == 0 || entry.channels <= 0 {
        0
    } else {
        (entry.samples.len() as int / entry.channels) * 1_000_000 / entry.rate
    }
}

/// Whether two buffers claim the same time.
pub open spec fn clashes(a: Entry, b: Entry) -> bool {
    a.timestamp < ends_at(b) && b.timestamp < ends_at(a)
}

proof fn lemma_ends(entry: Entry)
    ensures
        entry.end_us() == ends_at(entry),
{
    if entry.rate != 0 {
        assert(0int * 1_000_000 / entry.rate == 0) by (nonlinear_arith)
            requires
                entry.rate != 0,
        ;
    }
}

proof fn lemma_kept_is_filtered(pending: Seq<Entry>, new: Entry)
    ensures
        kept(pending, new) == pending.filter(|e: Entry| !clashes(e, new)),
    decreases pending.len(),
{
    reveal(Seq::filter);
    if pending.len() > 0 {
        lemma_kept_is_filtered(pending.drop_last(), new);
        lemma_ends(pending.last());
        lemma_ends(new);
    }
}

/// A buffer that is queued replaces every pending one that it clashes with, and no other: what
/// it does not clash with stays, in its order, and the new one stands once among them, behind
/// all that are not later and before all that are.
pub proof fn a_queued_buffer_replaces_what_it_clashes_with(pending: Seq<Entry>, new: Entry) -> (at:
    int)
    requires
        in_order(pending),
    ensures
        0 <= at < pushed(pending, new).len(),
        pushed(pending, new)[at] == new,
        pushed(pending, new).remove(at) == pending.filter(|e: Entry| !clashes(e, new)),
        forall|i: int|
            0 <= i < at ==> (#[trigger] pushed(pending, new)[i]).timestamp <= new.timestamp,
        forall|i: int|
            at < i < pushed(pending, new).len() ==> (#[trigger] pushed(pending, new)[i]).timestamp
                > new.timestamp,
{
    let rest = kept(pending, new);
    let at = slot(rest, new.timestamp);
    lemma_kept_in_order(pending, new);
    lemma_slot(rest, new.timestamp);
    lemma_kept_is_filtered(pending, new);
    let all = pushed(pending, new);
    assert(all.remove(at) =~= rest);
    assert forall|i: int| at < i < all.len() implies (#[trigger] all[i]).timestamp > new.timestamp
        by {
        assert(all[i] == rest[i - 1]);
    }
    at
}

/// All frames that are pending are counted: each buffer counts for its own, wherever it is
/// put.
pub proof fn every_pending_frame_is_counted(pending: Seq<Entry>, at: int, entry: Entry)
    requires
        0 <= at <= pending.len(),
        entry.channels > 0,
    ensures
        total_frames(Seq::<Entry>::empty()) == 0,
        total_frames(pending.insert(at, entry)) == total_frames(pending) + entry.samples.len()
            as int / entry.channels,
{
    lemma_total_insert(pending, at, entry);
}

/// Whether a buffer of a source has no frame to give: what is left of the current one is less
/// than a frame, and of one that is pending the cursor has passed every frame.
pub open spec fn is_over(s: Source, i: int, channels: int, rate: int) -> bool {
    if s.current is Some && i == 0 {
        s.order()[i].samples.len() - s.index < channels
    } else {
        let frames = s.order()[i].samples.len() as int / channels;
        frames == 0 || (s.cursor_us > s.order()[i].timestamp && frames * 1_000_000 <= (s.cursor_us
            - s.order()[i].timestamp) * rate)
    }
}

/// The frame of a buffer that comes next: of the current one the frame that it has got to, of
/// one that is pending the first that the cursor has not passed whole.
pub open spec fn comes_next(s: Source, i: int, channels: int, rate: int, frame: int) -> bool {
    if s.current is Some && i == 0 {
        frame * channels == s.index
    } else {
        let behind = (s.cursor_us - s.order()[i].timestamp) * rate;
        if s.cursor_us <= s.order()[i].timestamp {
            frame == 0
        } else {
            frame * 1_000_000 <= behind < (frame + 1) * 1_000_000
        }
    }
}

proof fn lemma_stale(cursor_us: int, timestamp: int, rate: int, frames: int)
    requires
        rate >= 0,
        frames >= 0,
    ensures
        ({
            let skip = stale_frames(cursor_us, timestamp, rate);
            let behind = (cursor_us - timestamp) * rate;
            &&& skip >= 0
            &&& skip >= frames <==> frames == 0 || (cursor_us > timestamp && frames * 1_000_000
                <= behind)
            &&& cursor_us > timestamp ==> skip * 1_000_000 <= behind < (skip + 1) * 1_000_000
            &&& cursor_us <= timestamp ==> skip == 0
        }),
{
    if cursor_us > timestamp {
        let behind = (cursor_us - timestamp) * rate;
        assert(behind >= 0) by (nonlinear_arith)
            requires
                behind == (cursor_us - timestamp) * rate,
                cursor_us > timestamp,
                rate >= 0,
        ;
    }
}

/// Which buffer is brought to the front.
proof fn lemma_admitted(s: Source, channels: int, rate: int) -> (at: int)
    requires
        channels > 0,
        rate >= 0,
    ensures
        ({
            let ready = admitted(s, channels, rate);
            match ready.current {
                None => ready.pending.len() == 0 && forall|i: int|
                    0 <= i < s.order().len() ==> #[trigger] is_over(s, i, channels, rate),
                Some(entry) => {
                    &&& 0 <= at < s.order().len()
                    &&& entry == s.order()[at]
                    &&& forall|i: int| 0 <= i < at ==> #[trigger] is_over(s, i, channels, rate)
                    &&& !is_over(s, at, channels, rate)
                    &&& ready.pending == s.order().skip(at + 1)
                    &&& ready.left() >= channels
                    &&& ready.retired_through == if at == 0 {
                        s.retired_through
                    } else {
                        s.order()[at - 1].id
                    }
                    &&& if s.current is Some && at == 0 {
                        ready == s
                    } else {
                        &&& exists|frame: int|
                            0 <= frame && ready.index == frame * channels && #[trigger] comes_next(
                                s,
                                at,
                                channels,
                                rate,
                                frame,
                            )
                        &&& (ready.cursor_us, ready.cursor_remainder) == if entry.timestamp
                            > s.cursor_us {
                            (entry.timestamp, 0i64)
                        } else {
                            (s.cursor_us, s.cursor_remainder)
                        }
                    }
                },
            }
        }),
    decreases s.order().len(), 1int,
{
    match s.current {
        Some(entry) => if s.left() >= channels {
            assert(s.order().skip(1) =~= s.pending);
            0
        } else {
            let next = Source { current: None, index: 0, retired_through: entry.id, ..s };
            lemma_admitted_behind(s, next, channels, rate)
        },
        None => if s.pending.len() == 0 {
            0
        } else {
            let entry = s.pending[0];
            let frames = entry.samples.len() as int / channels;
            let skip = stale_frames(s.cursor_us as int, entry.timestamp as int, rate);
            lemma_div_bound(entry.samples.len() as int, channels);
            lemma_stale(s.cursor_us as int, entry.timestamp as int, rate, frames);
            if skip >= frames {
                let next = Source { pending: s.pending.skip(1), retired_through: entry.id, ..s };
                lemma_admitted_behind(s, next, channels, rate)
            } else {
                lemma_frame_fits(skip, channels, entry.samples.len() as int);
                assert(comes_next(s, 0, channels, rate, skip));
                if entry.timestamp > s.cursor_us {
                    assert(0 * channels == 0);
                }
                0
            }
        },
    }
}

proof fn lemma_admitted_behind(s: Source, next: Source, channels: int, rate: int) -> (at: int)
    requires
        channels > 0,
        rate >= 0,
        s.order().len() > 0,
        next.current is None,
        next.order() =~= s.order().skip(1),
        next.cursor_us == s.cursor_us,
        next.cursor_remainder == s.cursor_remainder,
        next.retired_through == s.order()[0].id,
        is_over(s, 0, channels, rate),
        admitted(s, channels, rate) == admitted(next, channels, rate),
    ensures
        ({
            let ready = admitted(s, channels, rate);
            match ready.current {
                None => ready.pending.len() == 0 && forall|i: int|
                    0 <= i < s.order().len() ==> #[trigger] is_over(s, i, channels, rate),
                Some(entry) => {
                    &&& 0 < at < s.order().len()
                    &&& entry == s.order()[at]
                    &&& forall|i: int| 0 <= i < at ==> #[trigger] is_over(s, i, channels, rate)
                    &&& !is_over(s, at, channels, rate)
                    &&& ready.pending == s.order().skip(at + 1)
                    &&& ready.left() >= channels
                    &&& ready.retired_through == s.order()[at - 1].id
                    &&& exists|frame: int|
                        0 <= frame && ready.index == frame * channels && #[trigger] comes_next(
                            s,
                            at,
                            channels,
                            rate,
                            frame,
                        )
                    &&& (ready.cursor_us, ready.cursor_remainder) == if entry.timestamp
                        > s.cursor_us {
                        (entry.timestamp, 0i64)
                    } else {
                        (s.cursor_us, s.cursor_remainder)
                    }
                },
            }
        }),
    decreases s.order().len(), 0int,
{
    let at = lemma_admitted(next, channels, rate);
    let ready = admitted(s, channels, rate);
    assert forall|i: int| 0 < i < s.order().len() implies #[trigger] is_over(s, i, channels, rate)
        == is_over(next, i - 1, channels, rate) by {
        assert(next.order()[i - 1] == s.order()[i]);
    }
    match ready.current {
        None => {},
        Some(entry) => {
            assert(next.order().skip(at + 1) =~= s.order().skip(at + 2));
            assert(next.order()[at] == s.order()[at + 1]);
            let frame = choose|frame: int|
                0 <= frame && ready.index == frame * channels && #[trigger] comes_next(
                    next,
                    at,
                    channels,
                    rate,
                    frame,
                );
            assert(comes_next(s, at + 1, channels, rate, frame));
            if at > 0 {
                assert(next.order()[at - 1] == s.order()[at]);
            }
        },
    }
    at + 1
}

/// A request for a frame gets the next frame of the first buffer in playback order that has
/// one: buffers that the cursor has passed are left out, and of one that it has partly passed
/// the frames that lie behind it. It gets all channels of that frame. Nothing is got exactly
/// where no buffer has a frame.
pub proof fn a_request_gets_the_next_frame(s: Source, channels: int, rate: int) -> (found: (
    int,
    int,
))
    requires
        channels > 0,
        rate >= 0,
        s.index >= 0,
        s.index % channels == 0,
    ensures
        match next_frame(s, channels, rate) {
            None => forall|i: int|
                0 <= i < s.order().len() ==> #[trigger] is_over(s, i, channels, rate),
            Some(samples) => {
                let (at, frame) = found;
                &&& 0 <= at < s.order().len()
                &&& forall|i: int| 0 <= i < at ==> #[trigger] is_over(s, i, channels, rate)
                &&& !is_over(s, at, channels, rate)
                &&& 0 <= frame
                &&& comes_next(s, at, channels, rate, frame)
                &&& frame * channels + channels <= s.order()[at].samples.len()
                &&& samples.len() == channels
                &&& forall|c: int|
                    0 <= c < channels ==> #[trigger] samples[c] == s.order()[at].samples[frame
                        * channels + c]
            },
        },
{
    let at = lemma_admitted(s, channels, rate);
    let ready = admitted(s, channels, rate);
    match ready.current {
        None => (0, 0),
        Some(entry) => {
            if s.current is Some && at == 0 {
                let frame = s.index / channels;
                assert(frame * channels == s.index && frame >= 0) by (nonlinear_arith)
                    requires
                        frame == s.index / channels,
                        s.index % channels == 0,
                        s.index >= 0,
                        channels > 0,
                ;
                (0, frame)
            } else {
                let frame = choose|frame: int|
                    0 <= frame && ready.index == frame * channels && #[trigger] comes_next(
                        s,
                        at,
                        channels,
                        rate,
                        frame,
                    );
                (at, frame)
            }
        },
    }
}

/// What a request leaves of the source: everything behind the buffer that gave the frame, and
/// that buffer as long as it has another whole frame, one frame on; what came before it is
/// retired. The cursor moves up to a buffer that lies ahead, and then by one frame, to the
/// microsecond, with what does not make a whole one carried on. Nothing else changes; without
/// a frame the cursor stays.
pub proof fn a_request_moves_the_source_by_one_frame(s: Source, channels: int, rate: int) -> (at:
    int)
    requires
        channels > 0,
        rate > 0,
        rate <= u32::MAX,
        s.index >= 0,
    ensures
        match next_frame(s, channels, rate) {
            None => {
                let after = consumed(s, channels, rate);
                &&& after.order().len() == 0
                &&& after.cursor_us == s.cursor_us
                &&& after.cursor_remainder == s.cursor_remainder
            },
            Some(samples) => {
                let after = consumed(s, channels, rate);
                let entry = s.order()[at];
                let (from_us, from_remainder) = if !(s.current is Some && at == 0)
                    && entry.timestamp > s.cursor_us {
                    (entry.timestamp, 0i64)
                } else {
                    (s.cursor_us, s.cursor_remainder)
                };
                &&& 0 <= at < s.order().len()
                &&& forall|i: int| 0 <= i < at ==> #[trigger] is_over(s, i, channels, rate)
                &&& !is_over(s, at, channels, rate)
                &&& after.pending == s.order().skip(at + 1)
                &&& after.current is None ==> after.index == 0 && after.retired_through == entry.id
                &&& after.current matches Some(current) ==> {
                    &&& current == entry
                    &&& after.index + channels <= entry.samples.len()
                    &&& after.retired_through == if at == 0 {
                        s.retired_through
                    } else {
                        s.order()[at - 1].id
                    }
                    &&& s.current is Some && at == 0 ==> after.index == s.index + channels
                    &&& !(s.current is Some && at == 0) ==> exists|frame: int|
                        0 <= frame && after.index == (frame + 1) * channels
                            && #[trigger] comes_next(s, at, channels, rate, frame)
                }
                &&& s.current is Some && at == 0 ==> (after.current is Some <==> s.index + 2
                    * channels <= entry.samples.len())
                &&& i64::MIN <= from_us + (from_remainder + 1_000_000) / rate <= i64::MAX
                    ==> after.cursor_us * rate + after.cursor_remainder == from_us * rate
                    + from_remainder + 1_000_000 && 0 <= after.cursor_remainder < rate
            },
        },
{
    let at = lemma_admitted(s, channels, rate);
    let ready = admitted(s, channels, rate);
    match ready.current {
        None => {
            lemma_cursor_waits(s, channels, rate);
            0
        },
        Some(entry) => {
            if i64::MIN <= ready.cursor_us + (ready.cursor_remainder + 1_000_000) / rate
                <= i64::MAX {
                the_cursor_does_not_drift(ready.cursor_us, ready.cursor_remainder, rate);
            }
            if !(s.current is Some && at == 0) {
                let frame = choose|frame: int|
                    0 <= frame && ready.index == frame * channels && #[trigger] comes_next(
                        s,
                        at,
                        channels,
                        rate,
                        frame,
                    );
                assert((frame + 1) * channels == frame * channels + channels)
                    by (nonlinear_arith);
                assert(comes_next(s, at, channels, rate, frame));
            }
            at
        },
    }
}

/// Without a frame the cursor stays.
proof fn lemma_cursor_waits(s: Source, channels: int, rate: int)
    requires
        admitted(s, channels, rate).current is None,
    ensures
        admitted(s, channels, rate).cursor_us == s.cursor_us,
        admitted(s, channels, rate).cursor_remainder == s.cursor_remainder,
    decreases s.order().len(),
{
    match s.current {
        Some(entry) => {
            let next = Source { current: None, index: 0, retired_through: entry.id, ..s };
            if s.left() < channels {
                lemma_cursor_waits(next, channels, rate);
            }
        },
        None => if s.pending.len() > 0 {
            let entry = s.pending[0];
            let next = Source { pending: s.pending.skip(1), retired_through: entry.id, ..s };
            lemma_cursor_waits(next, channels, rate);
        },
    }
}

} // verus!
