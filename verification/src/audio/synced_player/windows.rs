//! What a window holds, and what a position says, told of the source that they are made from.
use super::ingress::checkpoint::SourcePosition;
use super::preparation::{
    chunk, fills, first_of, frame_between, holds, lemma_chunk_bounds, lemma_first_of, reconciled,
    requests_made, source_after, Window,
};
use super::queue::{next_frame, Source};
use vstd::prelude::*;

verus! {

/// A place in a window holds the frame that the source gives after so many others: all its
/// samples, where the device has to be for it, and where it leads.
pub open spec fn holds_frame(s: Source, window: Window, k: int, channels: int, rate: int) -> bool {
    let here = source_after(s, k, channels, rate);
    let next = source_after(s, k + 1, channels, rate);
    let frame = window.frames@[k];
    &&& next_frame(here, channels, rate) matches Some(samples) && samples.len() == channels
        && forall|c: int|
        0 <= c < channels ==> #[trigger] samples[c] == window.pcm@[k * channels + c]
    &&& frame.before_current == (match here.current {
        Some(entry) => entry.id,
        None => 0,
    })
    &&& frame.before_index == here.index as usize
    &&& frame.requires_epoch <==> (here.current matches Some(entry) ==> entry.samples.len()
        - here.index < channels)
    &&& frame.position.retired_through == next.retired_through
    &&& frame.position.current == (match next.current {
        Some(entry) => entry.id,
        None => 0,
    })
    &&& frame.position.index == next.index as usize
    &&& frame.position.cursor_us == next.cursor_us
    &&& frame.position.cursor_remainder == next.cursor_remainder
}

/// A window holds what the source gives next, frame by frame and in all channels: as many frames
/// as there is room for, or as the source has. Each frame says where the device has to be for it,
/// and where it leads, and needs the version of the window exactly where the source that is
/// played has no whole frame left. A source that is passed over at the end is told too.
pub proof fn a_window_holds_what_the_source_gives(
    s: Source,
    blank: Window,
    window: Window,
    channels: int,
    rate: int,
)
    requires
        channels > 0,
        fills(s, blank, window, channels, rate),
    ensures
        window.frames@.len() == blank.frames@.len(),
        window.pcm@.len() == window.frames@.len() * channels,
        window.valid <= window.frames@.len(),
        forall|k: int|
            0 <= k < window.valid ==> #[trigger] holds_frame(s, window, k, channels, rate),
        window.valid < window.frames@.len() ==> next_frame(
            source_after(s, window.valid as int, channels, rate),
            channels,
            rate,
        ) is None,
        window.skipped_tail is Some <==> window.valid < window.frames@.len() && source_after(
            s,
            window.valid + 1,
            channels,
            rate,
        ).retired_through != source_after(s, window.valid as int, channels, rate).retired_through,
        window.skipped_tail matches Some(tail) ==> tail.position.retired_through == source_after(
            s,
            window.valid + 1,
            channels,
            rate,
        ).retired_through,
        requests_made(window) == window.valid + (if window.valid < window.frames@.len() {
            1int
        } else {
            0
        }),
{
    assert forall|k: int| 0 <= k < window.valid implies #[trigger] holds_frame(
        s,
        window,
        k,
        channels,
        rate,
    ) by {
        let here = source_after(s, k, channels, rate);
        lemma_chunk_bounds(k, window.frames@.len() as int, channels);
        assert(next_frame(here, channels, rate) == Some(chunk(window.pcm@, k, channels)));
        assert(window.frames@[k] == frame_between(
            here,
            source_after(s, k + 1, channels, rate),
            channels,
        ));
        let left = here.left();
        assert((left / channels == 0) == (left < channels)) by (nonlinear_arith)
            requires
                left >= 0,
                channels > 0,
        ;
    }
}

/// A source that is moved to a position that belongs to it has what the position says: everything
/// up to the last retired source is gone and nothing else, the source that the position names is
/// the current one, or none, and the place in it and the cursor are those of the position.
pub proof fn a_source_is_moved_to_a_position(s: Source, position: SourcePosition) -> (count: int)
    requires
        holds(s, position),
    ensures
        0 <= count <= s.order().len(),
        count == 0 ==> position.retired_through == s.retired_through,
        count > 0 ==> s.order()[count - 1].id == position.retired_through,
        reconciled(s, position).order() == s.order().skip(count),
        reconciled(s, position).retired_through == position.retired_through,
        (match reconciled(s, position).current {
            Some(entry) => entry.id,
            None => 0,
        }) == position.current,
        reconciled(s, position).index == position.index,
        reconciled(s, position).cursor_us == position.cursor_us,
        reconciled(s, position).cursor_remainder == position.cursor_remainder,
{
    lemma_first_of(s.order(), position.retired_through);
    let count: int = if position.retired_through == s.retired_through {
        0
    } else {
        first_of(s.order(), position.retired_through) + 1
    };
    assert(s.order().skip(0) =~= s.order());
    let moved = reconciled(s, position);
    if position.retired_through == s.retired_through {
        assert(moved.order() =~= s.order());
    } else {
        assert(moved.order() =~= s.order().skip(count));
    }
    count
}

/// A position does not belong to a source that has none of what it names: it was retired before,
/// or never came.
pub proof fn a_foreign_position_is_refused(s: Source, position: SourcePosition)
    requires
        position.retired_through != s.retired_through,
        forall|i: int|
            0 <= i < s.order().len() ==> (#[trigger] s.order()[i]).id != position.retired_through,
    ensures
        !holds(s, position),
{
    lemma_first_of(s.order(), position.retired_through);
}

/// A position belongs to a source where it names what is there: nothing more is retired and the
/// current source is the same, or the first one is entered; or one of the sources is the last that is
/// retired, and the one behind it is current, or none.
pub proof fn a_position_of_the_source_is_taken(s: Source, position: SourcePosition, k: int)
    requires
        0 <= k <= s.order().len(),
        forall|i: int, j: int|
            0 <= i < j < s.order().len() ==> (#[trigger] s.order()[i]).id != (
            #[trigger] s.order()[j]).id,
        k == 0 ==> position.retired_through == s.retired_through,
        k > 0 ==> s.order()[k - 1].id == position.retired_through && position.retired_through
            != s.retired_through,
        k == 0 ==> position.current == s.current_id() || (s.current is None && s.pending.len() > 0
            && position.current == s.pending[0].id && position.current != 0),
        k > 0 ==> position.current == 0 || (k < s.order().len() && position.current
            == s.order()[k].id),
    ensures
        holds(s, position),
{
    let order = s.order();
    lemma_first_of(order, position.retired_through);
    if k > 0 {
        let found = first_of(order, position.retired_through);
        if found > k - 1 {
            assert(order[k - 1].id != position.retired_through);
        } else if found < k - 1 {
            assert(order[found].id != order[k - 1].id);
        }
        if position.current != 0 {
            assert(order.skip(k)[0] == order[k]);
        }
    }
}

} // verus!
