//! Which frame of a window a device takes.
use super::ingress::GateView;
use super::preparation::{chunk, lemma_chunk_bounds, Frame, Window};
use super::reader::{
    a_rendering_begins_by_the_notices_and_the_plan, begun, could_return, given_back, play, play_one,
    playing, take, taking, FrameCounts, Playing, Reached, Reader, Rendered, Taking,
};
use super::transport::DeviceSide;
use crate::audio::sync_correction::{cadence_step, CadenceStep, CorrectionSchedule};
use vstd::prelude::*;

verus! {

/// A place in a window holds the frame that the device goes on with: it is not behind the place that
/// the device has got to, and has the number that comes next; the window is not older than what
/// counts; the device is in the source that the frame goes on in, and at its place there; a frame that
/// begins a source is of the version that stands; and all its samples are there.
pub open spec fn goes_on_at(
    window: Window,
    k: int,
    t: Taking,
    minimum_epoch: u64,
    epoch: u64,
    channels: int,
) -> bool {
    let frame = window.frames@[k];
    &&& t.offset <= k < window.valid
    &&& k < window.frames@.len()
    &&& window.source_base + k == t.consumed
    &&& window.epoch >= minimum_epoch
    &&& frame.before_current == t.current
    &&& t.current != 0 ==> (t.position matches Some(position) ==> position.index
        == frame.before_index)
    &&& frame.requires_epoch ==> window.epoch == epoch
    &&& k * channels + channels <= window.pcm@.len()
}

/// The frame that a device goes on with is taken where the window ahead holds it: all its samples, and
/// the device is where it leads then, one frame further. The source time that the device began with
/// stays, or is the one at that place.
pub proof fn the_frame_that_goes_on_is_taken(
    t: Taking,
    minimum_epoch: u64,
    epoch: u64,
    channels: int,
    k: int,
)
    requires
        channels > 0,
        t.visible > 0,
        !t.blocked,
        t.windows.len() > 0,
        t.offset >= 0,
        t.consumed < u64::MAX,
        goes_on_at(t.windows[0], k, t, minimum_epoch, epoch, channels),
    ensures
        ({
            let (after, found) = take(t, minimum_epoch, epoch, channels);
            let window = t.windows[0];
            &&& found matches Some(samples) && samples.len() == channels && forall|c: int|
                0 <= c < channels ==> #[trigger] samples[c] == window.pcm@[k * channels + c]
            &&& after.consumed == t.consumed + 1
            &&& after.position == Some(window.frames@[k].position)
            &&& after.current == window.frames@[k].position.current
            &&& t.origin is Some ==> after.origin == t.origin
            &&& t.origin is None && k > 0 ==> after.origin == Some(
                window.frames@[k - 1].position.cursor_us,
            )
            &&& t.origin is None && k == 0 ==> after.origin == window.cursor_before
            &&& k + 1 < window.valid ==> after.windows == t.windows && after.offset == k + 1
                && after.visible == t.visible && !after.blocked && after.slack == t.slack
        }),
{
    reveal_with_fuel(take, 3);
    lemma_chunk_bounds(k, k + 1, channels);
    assert((k + 1) * channels == k * channels + channels) by (nonlinear_arith);
    let window = t.windows[0];
    assert forall|c: int| 0 <= c < channels implies #[trigger] chunk(window.pcm@, k, channels)[c]
        == window.pcm@[k * channels + c] by {}
}

/// With one window ahead, nothing but the frame that the device goes on with is taken.
pub proof fn no_other_frame_is_taken(t: Taking, minimum_epoch: u64, epoch: u64, channels: int)
    requires
        channels > 0,
        t.visible <= 1,
        t.offset >= 0,
    ensures
        take(t, minimum_epoch, epoch, channels).1 is Some ==> t.visible == 1 && !t.blocked
            && t.windows.len() > 0 && t.consumed < u64::MAX && goes_on_at(
            t.windows[0],
            t.consumed - t.windows[0].source_base,
            t,
            minimum_epoch,
            epoch,
            channels,
        ),
{
    reveal_with_fuel(take, 4);
}

/// A window that does not hold the frame that the device goes on with does not stand in the way: it is
/// given back, and what is taken is what the windows behind it give.
pub proof fn a_window_that_does_not_go_on_is_passed_over(
    t: Taking,
    minimum_epoch: u64,
    epoch: u64,
    channels: int,
)
    requires
        channels > 0,
        t.visible > 0,
        !t.blocked,
        t.windows.len() > 0,
        t.offset >= 0,
        t.slack > 0,
        t.windows[0].skipped_tail is None,
        !goes_on_at(
            t.windows[0],
            t.consumed - t.windows[0].source_base,
            t,
            minimum_epoch,
            epoch,
            channels,
        ),
    ensures
        take(t, minimum_epoch, epoch, channels) == take(
            Taking {
                windows: t.windows.skip(1),
                offset: 0,
                visible: t.visible - 1,
                blocked: false,
                slack: t.slack - 1,
                ..t
            },
            minimum_epoch,
            epoch,
            channels,
        ),
{
    reveal_with_fuel(take, 3);
}

/// A source that is passed over at the end of a window is left behind where that goes on from where the
/// device is: the windows behind it are taken from as if the device were where it leads.
pub proof fn a_source_that_is_passed_over_is_left_behind(
    t: Taking,
    minimum_epoch: u64,
    epoch: u64,
    channels: int,
    tail: Frame,
)
    requires
        channels > 0,
        t.visible > 0,
        !t.blocked,
        t.windows.len() > 0,
        0 <= t.offset <= t.windows[0].valid,
        t.slack > 0,
        t.origin is Some,
        t.windows[0].skipped_tail == Some(tail),
        t.windows[0].source_base + t.windows[0].valid == t.consumed,
        t.windows[0].epoch >= minimum_epoch,
        tail.before_current == t.current,
        t.current != 0 ==> (t.position matches Some(position) ==> position.index
            == tail.before_index),
        tail.requires_epoch ==> t.windows[0].epoch == epoch,
    ensures
        take(t, minimum_epoch, epoch, channels) == take(
            Taking {
                windows: t.windows.skip(1),
                offset: 0,
                visible: t.visible - 1,
                blocked: false,
                slack: t.slack - 1,
                position: Some(tail.position),
                current: tail.position.current,
                ..t
            },
            minimum_epoch,
            epoch,
            channels,
        ),
{
    reveal_with_fuel(take, 3);
}

/// A frame of a window goes on from the one before it: in the source and at the place where that leads,
/// and of the version that stands if it begins a source.
pub open spec fn goes_on_from(window: Window, k: int, epoch: u64, channels: int) -> bool {
    let before = window.frames@[k - 1];
    let frame = window.frames@[k];
    &&& 0 < k < window.valid
    &&& k < window.frames@.len()
    &&& frame.before_current == before.position.current
    &&& frame.before_current != 0 ==> frame.before_index == before.position.index
    &&& frame.requires_epoch ==> window.epoch == epoch
    &&& k * channels + channels <= window.pcm@.len()
}

proof fn lemma_goes_on(
    t: Taking,
    after: Taking,
    minimum_epoch: u64,
    epoch: u64,
    channels: int,
    k: int,
)
    requires
        channels > 0,
        t.visible > 0,
        !t.blocked,
        t.windows.len() > 0,
        t.offset >= 0,
        t.consumed < u64::MAX,
        goes_on_at(t.windows[0], k, t, minimum_epoch, epoch, channels),
        goes_on_from(t.windows[0], k + 1, epoch, channels),
        after == take(t, minimum_epoch, epoch, channels).0,
    ensures
        goes_on_at(after.windows[0], k + 1, after, minimum_epoch, epoch, channels),
        after.windows == t.windows,
        after.offset == k + 1,
        after.visible == t.visible,
        !after.blocked,
{
    the_frame_that_goes_on_is_taken(t, minimum_epoch, epoch, channels, k);
}

/// An output frame is what its cadence step says: a repeat is the last frame again, and takes nothing;
/// one that follows is the frame that the device goes on with, or silence, which is counted, where it
/// has none; a skip leaves that one out and is the one behind it.
pub proof fn an_output_frame_is_what_its_step_says(
    p: Playing,
    schedule: CorrectionSchedule,
    measured: bool,
    minimum_epoch: u64,
    epoch: u64,
    k: int,
)
    requires
        p.last.len() > 0,
        p.taking.visible > 0,
        !p.taking.blocked,
        p.taking.windows.len() > 0,
        p.taking.offset >= 0,
        p.taking.consumed < u64::MAX - 1,
        goes_on_at(p.taking.windows[0], k, p.taking, minimum_epoch, epoch, p.last.len() as int),
    ensures
        ({
            let (after, output) = play_one(p, schedule, measured, minimum_epoch, epoch);
            let step = cadence_step(schedule, measured, p.counters).0;
            let channels = p.last.len() as int;
            let window = p.taking.windows[0];
            &&& step == CadenceStep::Repeat ==> output == p.last && after.last == p.last
                && after.taking == p.taking && after.inserted == p.inserted + 1
            &&& step == CadenceStep::Follow ==> output.len() == channels && after.last == output
                && after.missing == p.missing && after.inserted == p.inserted && forall|c: int|
                0 <= c < channels ==> #[trigger] output[c] == window.pcm@[k * channels + c]
            &&& step == CadenceStep::Skip && goes_on_from(window, k + 1, epoch, channels)
                ==> output.len() == channels && after.last == output && after.dropped == p.dropped
                + 1 && forall|c: int|
                0 <= c < channels ==> #[trigger] output[c] == window.pcm@[(k + 1) * channels + c]
        }),
{
    let channels = p.last.len() as int;
    the_frame_that_goes_on_is_taken(p.taking, minimum_epoch, epoch, channels, k);
    if goes_on_from(p.taking.windows[0], k + 1, epoch, channels) {
        let between = take(p.taking, minimum_epoch, epoch, channels).0;
        lemma_goes_on(p.taking, between, minimum_epoch, epoch, channels, k);
        the_frame_that_goes_on_is_taken(between, minimum_epoch, epoch, channels, k + 1);
    }
}

proof fn lemma_run(
    p: Playing,
    frames: int,
    schedule: CorrectionSchedule,
    minimum_epoch: u64,
    epoch: u64,
    k: int,
)
    requires
        p.last.len() > 0,
        frames > 0,
        p.taking.visible > 0,
        !p.taking.blocked,
        p.taking.windows.len() > 0,
        p.taking.offset >= 0,
        p.taking.consumed + frames <= u64::MAX,
        goes_on_at(p.taking.windows[0], k, p.taking, minimum_epoch, epoch, p.last.len() as int),
        forall|j: int|
            k < j < k + frames ==> #[trigger] goes_on_from(
                p.taking.windows[0],
                j,
                epoch,
                p.last.len() as int,
            ),
    ensures
        ({
            let (end, output) = play(p, frames, schedule, false, minimum_epoch, epoch);
            let channels = p.last.len() as int;
            let window = p.taking.windows[0];
            &&& output.len() == frames * channels
            &&& forall|j: int, c: int|
                0 <= j < frames && 0 <= c < channels ==> output[j * channels + c]
                    == #[trigger] window.pcm@[(k + j) * channels + c]
            &&& end.last.len() == channels
            &&& end.missing == p.missing && end.inserted == p.inserted && end.dropped == p.dropped
            &&& end.taking.consumed == p.taking.consumed + frames
            &&& k + frames < window.valid ==> {
                &&& end.taking.windows == p.taking.windows
                &&& end.taking.offset == k + frames
                &&& end.taking.visible == p.taking.visible
                &&& !end.taking.blocked
                &&& goes_on_from(window, k + frames, epoch, channels) ==> goes_on_at(
                    window,
                    k + frames,
                    end.taking,
                    minimum_epoch,
                    epoch,
                    channels,
                )
            }
        }),
    decreases frames,
{
    let channels = p.last.len() as int;
    let window = p.taking.windows[0];
    let before = if frames == 1 {
        (p, Seq::<i32>::empty())
    } else {
        play(p, frames - 1, schedule, false, minimum_epoch, epoch)
    };
    if frames > 1 {
        lemma_run(p, frames - 1, schedule, minimum_epoch, epoch, k);
        assert(goes_on_from(window, k + frames - 1, epoch, channels));
    } else {
        assert(play(p, 0, schedule, false, minimum_epoch, epoch) == before);
        assert(0 * channels == 0);
    }
    let q = before.0;
    let at = k + frames - 1;
    assert(goes_on_at(q.taking.windows[0], at, q.taking, minimum_epoch, epoch, channels));
    the_frame_that_goes_on_is_taken(q.taking, minimum_epoch, epoch, channels, at);
    if goes_on_from(window, at + 1, epoch, channels) {
        lemma_goes_on(
            q.taking,
            take(q.taking, minimum_epoch, epoch, channels).0,
            minimum_epoch,
            epoch,
            channels,
            at,
        );
    }
    let (end, output) = play(p, frames, schedule, false, minimum_epoch, epoch);
    let last = play_one(q, schedule, false, minimum_epoch, epoch);
    assert(end == last.0 && output == before.1 + last.1);
    assert(frames * channels == (frames - 1) * channels + channels) by (nonlinear_arith);
    assert forall|j: int, c: int| 0 <= j < frames && 0 <= c < channels implies output[j * channels
        + c] == #[trigger] window.pcm@[(k + j) * channels + c] by {
        if j < frames - 1 {
            lemma_chunk_bounds(j, frames - 1, channels);
            assert(output[j * channels + c] == before.1[j * channels + c]);
        } else {
            assert(output[(frames - 1) * channels + c] == last.1[c]);
        }
    }
}

/// Where the window ahead holds frames that go on from where the device is, one after the other, and
/// the time is not measured, a rendering outputs exactly these, in all channels, and lacks none.
pub proof fn prepared_frames_are_heard(
    reader: &mut Reader,
    pipe: &mut DeviceSide,
    view: GateView,
    started: Reached,
    output: &mut [i32],
    wanted: Option<CorrectionSchedule>,
    visible: &mut usize,
    result: (Rendered, Reached),
    k: int,
)
    requires
        ({
            let channels = old(reader)@.channels();
            let frames = old(output)@.len() as int / channels;
            let window = old(pipe).coming()[0];
            &&& channels > 0
            &&& old(output)@.len() as int % channels == 0
            &&& frames > 0
            &&& *old(visible) > 0
            &&& old(pipe).coming().len() > 0
            &&& old(pipe).held() is None
            &&& started.consumed + frames <= u64::MAX
            &&& !view.says().revoked && !view.says().reanchored
            &&& goes_on_at(
                window,
                k,
                taking(
                    old(reader)@,
                    *old(pipe),
                    *old(visible),
                    started.current,
                    started.consumed,
                    0,
                ),
                old(reader)@.minimum_epoch,
                view.says().epoch,
                channels,
            )
            &&& forall|j: int|
                k < j < k + frames ==> #[trigger] goes_on_from(
                    window,
                    j,
                    view.says().epoch,
                    channels,
                )
        }),
        call_ensures(
            Reader::render_from,
            (reader, pipe, view, started, output, false, wanted, visible),
            result,
        ),
    ensures
        ({
            let channels = old(reader)@.channels();
            let frames = old(output)@.len() as int / channels;
            let window = old(pipe).coming()[0];
            &&& forall|j: int, c: int|
                0 <= j < frames && 0 <= c < channels ==> final(output)@[j * channels + c]
                    == #[trigger] window.pcm@[(k + j) * channels + c]
            &&& result.0.missing == 0 && result.0.inserted == 0 && result.0.dropped == 0
            &&& result.1.consumed == started.consumed + frames
        }),
{
    let slack = given_back(*old(pipe), *final(pipe));
    assert(could_return(*old(pipe), *final(pipe), slack));
    let ready = begun(old(reader)@, view, false, wanted);
    let p = playing(
        ready,
        *old(pipe),
        *old(visible),
        started.current,
        started.consumed,
        slack,
        FrameCounts { inserted: 0, dropped: 0, missing: 0 },
    );
    let frames = old(output)@.len() as int / old(reader)@.channels();
    a_rendering_begins_by_the_notices_and_the_plan(old(reader)@, view, false, wanted);
    lemma_run(p, frames, ready.schedule, ready.minimum_epoch, view.says().epoch, k);
}

} // verus!
