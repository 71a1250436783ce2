//! The device's choice of frames out of prepared windows. It uses no queue, no
//! clock model, no lock, and frees nothing.
use super::ingress::checkpoint::{PublishedCheckpoint, SourcePosition};
use super::ingress::{CallbackGuard, ControlGate, GateView};
use super::preparation::{
    chunk, fills, frame_between, lemma_chunk_bounds, lemma_current_is_identified, position_of,
    source_after, Frame, Window,
};
use super::queue::{copy_samples, next_frame, Source};
use super::shared::{got_u64, put_u64};
use super::transport::{enters_lane, DeviceSide};
use crate::audio::sync_correction::{
    cadence_step, counters_after, next_cadence_step, steady, step_at, CadenceCounters, CadenceStep,
    CorrectionSchedule,
};
use std::sync::atomic::{AtomicU64, Ordering};
use vstd::prelude::*;

verus! {

/// What one rendering did.
#[derive(Clone, Copy, Debug, PartialEq, Eq, Structural)]
pub struct Rendered {
    pub consumed: u64,
    pub missing: usize,
    pub inserted: usize,
    pub dropped: usize,
    pub source_cursor_us: Option<i64>,
}

/// The state in which frames are taken: the windows ahead, the place in the first
/// of them, and where the device is in the source. `visible` windows may be
/// worked through; `slack` of them can be given back before one gets stuck, and
/// `blocked` says that one is.
pub struct Taking {
    pub windows: Seq<Window>,
    pub offset: int,
    pub position: Option<SourcePosition>,
    pub origin: Option<i64>,
    pub current: u64,
    pub consumed: u64,
    pub visible: int,
    pub blocked: bool,
    pub slack: int,
}

/// How many frames of a window have been consumed already.
pub open spec fn passed(window: Window, consumed: u64) -> int {
    if consumed <= window.source_base {
        0
    } else if consumed - window.source_base < window.valid {
        consumed - window.source_base
    } else {
        window.valid as int
    }
}

/// The frame at a place in a window, or the tail that follows its frames.
pub open spec fn frame_at(window: Window, offset: int) -> Option<Frame> {
    if 0 <= offset < window.valid && offset < window.frames@.len() {
        Some(window.frames@[offset])
    } else {
        window.skipped_tail
    }
}

/// Whether a frame continues what the device has played: it belongs to a version
/// that still counts, it is the next one by number, and it starts where the
/// device is.
pub open spec fn continues(
    window: Window,
    frame: Frame,
    t: Taking,
    minimum_epoch: u64,
    epoch: u64,
) -> bool {
    &&& window.epoch >= minimum_epoch
    &&& window.source_base + t.offset == t.consumed
    &&& frame.before_current == t.current
    &&& t.current != 0 && t.position is Some ==> t.position->0.index == frame.before_index
    &&& frame.requires_epoch ==> window.epoch == epoch
}

/// Whether a window holds the samples of a frame.
pub open spec fn holds_samples(window: Window, offset: int, channels: int) -> bool {
    0 <= offset < window.valid ==> offset < window.frames@.len() && offset * channels + channels
        <= window.pcm@.len()
}

/// The source time at a place in a window.
pub open spec fn cursor_at(window: Window, offset: int) -> Option<i64> {
    if 0 < offset <= window.frames@.len() {
        Some(window.frames@[offset - 1].position.cursor_us)
    } else {
        window.cursor_before
    }
}

/// The first window given back, or stuck.
pub open spec fn without_head(t: Taking) -> Taking {
    Taking {
        windows: t.windows.skip(1),
        offset: 0,
        visible: t.visible - 1,
        blocked: t.slack <= 0,
        slack: if t.slack <= 0 {
            0
        } else {
            t.slack - 1
        },
        ..t
    }
}

/// The next frame for the device, if the windows ahead hold one that continues
/// what it has played. Frames already consumed are passed over; windows that are
/// used up, or that do not continue, are given back.
pub open spec fn take(t: Taking, minimum_epoch: u64, epoch: u64, channels: int) -> (
    Taking,
    Option<Seq<i32>>,
)
    decreases
            t.visible,
            if t.windows.len() > 0 && passed(t.windows[0], t.consumed) > t.offset {
                1int
            } else {
                0
            },
{
    if t.visible <= 0 || t.blocked || t.windows.len() == 0 {
        (t, None)
    } else {
        let window = t.windows[0];
        let skip = passed(window, t.consumed);
        if skip > t.offset {
            take(Taking { offset: skip, ..t }, minimum_epoch, epoch, channels)
        } else {
            match frame_at(window, t.offset) {
                None => take(without_head(t), minimum_epoch, epoch, channels),
                Some(frame) => if !continues(window, frame, t, minimum_epoch, epoch)
                    || !holds_samples(window, t.offset, channels) {
                    take(without_head(t), minimum_epoch, epoch, channels)
                } else {
                    let origin = match t.origin {
                        Some(cursor) => Some(cursor),
                        None => cursor_at(window, t.offset),
                    };
                    let moved = Taking {
                        origin,
                        position: Some(frame.position),
                        current: frame.position.current,
                        ..t
                    };
                    if t.offset >= window.valid {
                        take(without_head(moved), minimum_epoch, epoch, channels)
                    } else if t.consumed == u64::MAX {
                        (Taking { origin, ..t }, None)
                    } else {
                        let next = Taking {
                            consumed: (t.consumed + 1) as u64,
                            offset: t.offset + 1,
                            ..moved
                        };
                        let samples = chunk(window.pcm@, t.offset, channels);
                        if t.offset + 1 == window.valid && window.skipped_tail is None {
                            (without_head(next), Some(samples))
                        } else {
                            (next, Some(samples))
                        }
                    }
                },
            }
        }
    }
}

/// The device's own state of rendering.
pub struct Reader {
    last: Vec<i32>,
    position: Option<SourcePosition>,
    minimum_epoch: u64,
    timeline: u64,
    schedule: CorrectionSchedule,
    counters: CadenceCounters,
    origin: Option<i64>,
}

/// The reader's state, as a value.
#[verifier::ext_equal]
pub struct ReaderState {
    /// The frame that was output last.
    pub last: Seq<i32>,
    /// Where the device is, if it has played since the last break.
    pub position: Option<SourcePosition>,
    /// The oldest version whose windows still count.
    pub minimum_epoch: u64,
    /// The version that began the present timeline.
    pub timeline: u64,
    pub schedule: CorrectionSchedule,
    pub counters: CadenceCounters,
    /// The source time at which the present rendering began.
    pub origin: Option<i64>,
}

impl ReaderState {
    pub open spec fn channels(self) -> int {
        self.last.len() as int
    }

    /// Only what taking a frame touches is different.
    pub open spec fn same_but_place(self, before: ReaderState) -> bool {
        self == (ReaderState { position: self.position, origin: self.origin, ..before })
    }
}

impl View for Reader {
    type V = ReaderState;

    closed spec fn view(&self) -> ReaderState {
        ReaderState {
            last: self.last@,
            position: self.position,
            minimum_epoch: self.minimum_epoch,
            timeline: self.timeline,
            schedule: self.schedule,
            counters: self.counters,
            origin: self.origin,
        }
    }
}

impl Reader {
    /// How many samples the last frame has room for.
    pub fn last_capacity(&self) -> (capacity: usize)
        ensures
            capacity >= self@.channels(),
    {
        super::transport::reserved(&self.last)
    }

    pub fn new(channels: usize) -> (reader: Reader)
        requires
            channels > 0,
        ensures
            reader@ == (ReaderState {
                last: Seq::new(channels as nat, |i: int| 0i32),
                position: None,
                minimum_epoch: 0,
                timeline: 0,
                schedule: steady(),
                counters: CadenceCounters { insert: 0, drop: 0 },
                origin: None,
            }),
    {
        let reader = Reader {
            last: vec![0; channels],
            position: None,
            minimum_epoch: 0,
            timeline: 0,
            schedule: CorrectionSchedule::default(),
            counters: CadenceCounters { insert: 0, drop: 0 },
            origin: None,
        };
        assert(reader.last@ =~= Seq::new(channels as nat, |i: int| 0i32));
        reader
    }

    pub fn schedule(&self) -> (schedule: CorrectionSchedule)
        ensures
            schedule == self@.schedule,
    {
        self.schedule
    }

    fn reset_cadence(&mut self)
        ensures
            final(self)@.schedule == steady(),
            final(self)@.counters == (CadenceCounters { insert: 0, drop: 0 }),
            final(self)@.last == old(self)@.last,
            final(self)@.position == old(self)@.position,
            final(self)@.minimum_epoch == old(self)@.minimum_epoch,
            final(self)@.timeline == old(self)@.timeline,
            final(self)@.origin == old(self)@.origin,
    {
        self.schedule = CorrectionSchedule::default();
        self.counters = CadenceCounters { insert: 0, drop: 0 };
    }
}

/// The taking state of a reader at a pipe, if so many windows can still be given
/// back.
pub open spec fn taking(
    reader: ReaderState,
    pipe: DeviceSide,
    visible: usize,
    current: u64,
    consumed: u64,
    slack: int,
) -> Taking {
    Taking {
        windows: pipe.coming(),
        offset: pipe.at() as int,
        position: reader.position,
        origin: reader.origin,
        current,
        consumed,
        visible: visible as int,
        blocked: pipe.held() is Some,
        slack,
    }
}

/// Windows given back between two states of a pipe.
pub open spec fn given_back(before: DeviceSide, after: DeviceSide) -> int {
    after.outgoing().sent() - before.outgoing().sent()
}

/// Whether `slack` is how many windows could be given back, judged by what
/// happened to a pipe: at least as many as were; exactly as many if one is stuck.
pub open spec fn could_return(before: DeviceSide, after: DeviceSide, slack: int) -> bool {
    &&& slack >= given_back(before, after)
    &&& after.held() is Some ==> slack == given_back(before, after)
}

/// The windows that a device has in hand: one on its way back, or none.
pub open spec fn in_hand(pipe: DeviceSide) -> int {
    if pipe.held() is Some {
        1
    } else {
        0
    }
}

/// What holds of a pipe through every rendering. Every window that is taken out is
/// given back or held: the device frees none.
pub open spec fn pipe_moved(before: DeviceSide, after: DeviceSide) -> bool {
    &&& after.incoming().taken() - before.incoming().taken() == given_back(before, after) + in_hand(
        after,
    ) - in_hand(before)
    &&& after.incoming().stream() == before.incoming().stream()
    &&& after.outgoing().stream() == before.outgoing().stream()
    &&& given_back(before, after) >= 0
    &&& after.held() is Some && before.held() is None ==> given_back(before, after)
        >= before.returnable()
    &&& before.held() is Some ==> after.held() is Some && given_back(before, after) == 0
    &&& after.returnable() >= before.returnable() - given_back(before, after)
}

fn passed_count(window: &Window, consumed: u64) -> (count: usize)
    ensures
        count == passed(*window, consumed),
{
    if consumed <= window.source_base {
        0
    } else {
        let behind: u64 = consumed - window.source_base;
        if behind < window.valid as u64 {
            behind as usize
        } else {
            window.valid
        }
    }
}

fn find_frame(window: &Window, offset: usize) -> (frame: Option<Frame>)
    ensures
        frame == frame_at(*window, offset as int),
{
    if offset < window.valid && offset < window.frames.len() {
        Some(window.frames[offset])
    } else {
        window.skipped_tail
    }
}

fn has_samples(window: &Window, offset: usize, channels: usize) -> (has: bool)
    requires
        channels > 0,
    ensures
        has == holds_samples(*window, offset as int, channels as int),
{
    if offset >= window.valid {
        return true;
    }
    let available: usize = window.pcm.len();
    match offset.checked_mul(channels) {
        Some(start) => offset < window.frames.len() && start <= available && channels <= available
            - start,
        None => false,
    }
}

fn find_cursor(window: &Window, offset: usize) -> (cursor: Option<i64>)
    ensures
        cursor == cursor_at(*window, offset as int),
{
    if 0 < offset && offset <= window.frames.len() {
        Some(window.frames[offset - 1].position.cursor_us)
    } else {
        window.cursor_before
    }
}

/// Whether a frame continues what the device has played.
fn frame_continues(
    window: &Window,
    frame: Frame,
    offset: usize,
    current: u64,
    consumed: u64,
    position: Option<SourcePosition>,
    minimum_epoch: u64,
    epoch: u64,
) -> (follows: bool)
    ensures
        forall|t: Taking|
            t.offset == offset && t.current == current && t.consumed == consumed && t.position
                == position ==> #[trigger] continues(*window, frame, t, minimum_epoch, epoch)
                == follows,
{
    let in_place: bool = match window.source_base.checked_add(offset as u64) {
        Some(number) => number == consumed,
        None => false,
    };
    let at_index: bool = match position {
        Some(p) => current == 0 || p.index == frame.before_index,
        None => true,
    };
    window.epoch >= minimum_epoch && in_place && frame.before_current == current && at_index && (
    !frame.requires_epoch || window.epoch == epoch)
}

/// Retiring the head of a pipe is `without_head`, as far as the pipe could return
/// it.
proof fn lemma_after_retire(
    reader: ReaderState,
    start: DeviceSide,
    here: DeviceSide,
    now: DeviceSide,
    visible: usize,
    current: u64,
    consumed: u64,
    slack: int,
)
    requires
        visible > 0,
        here.held() is None,
        now.coming() == here.coming().skip(1),
        now.at() == 0,
        given_back(here, now) == if now.held() is None {
            1int
        } else {
            0
        },
        could_return(start, now, slack),
    ensures
        could_return(start, here, slack),
        taking(
            reader,
            now,
            (visible - 1) as usize,
            current,
            consumed,
            slack - given_back(start, now),
        ) == without_head(
            taking(reader, here, visible, current, consumed, slack - given_back(start, here)),
        ),
{
}

impl Reader {
    /// Take the next frame, into `destination` if there is one. At most `visible`
    /// windows are worked through.
    ///
    /// Where that many windows have arrived, this is exactly `take`: for every
    /// number of windows that could have been given back.
    #[verifier::rlimit(60)]
    fn take_frame(
        &mut self,
        pipe: &mut DeviceSide,
        destination: Option<&mut [i32]>,
        visible: &mut usize,
        epoch: u64,
        current: &mut u64,
        consumed: &mut u64,
    ) -> (taken: bool)
        requires
            old(self)@.channels() > 0,
            old(pipe).incoming().placed(),
            *old(visible) <= old(pipe).arrived(),
            destination matches Some(d) ==> d@.len() == old(self)@.channels(),
        ensures
            final(self)@.same_but_place(old(self)@),
            pipe_moved(*old(pipe), *final(pipe)),
            final(pipe).incoming().placed(),
            *final(visible) <= *old(visible),
            *final(visible) <= final(pipe).arrived(),
            destination matches Some(d) ==> final(d)@.len() == d@.len(),
            destination matches Some(d) ==> !taken ==> final(d)@ == d@,
            forall|slack: int| #[trigger]
                could_return(*old(pipe), *final(pipe), slack) ==> {
                    let outcome = take(
                        taking(
                            old(self)@,
                            *old(pipe),
                            *old(visible),
                            *old(current),
                            *old(consumed),
                            slack,
                        ),
                        old(self)@.minimum_epoch,
                        epoch,
                        old(self)@.channels(),
                    );
                    &&& outcome.0 == taking(
                        final(self)@,
                        *final(pipe),
                        *final(visible),
                        *final(current),
                        *final(consumed),
                        slack - given_back(*old(pipe), *final(pipe)),
                    )
                    &&& taken == (outcome.1 is Some)
                    &&& destination matches Some(d) ==> taken ==> outcome.1 == Some(final(d)@)
                },
    {
        let ghost reader = self@;
        let ghost start = *pipe;
        let ghost oldest = self@.minimum_epoch;
        let ghost c = self@.channels();
        let ghost first_visible = *visible;
        let ghost first_current = *current;
        let ghost first_consumed = *consumed;
        while *visible > 0
            invariant
                reader == old(self)@,
                start == *old(pipe),
                first_visible == *old(visible),
                first_current == *old(current),
                first_consumed == *old(consumed),
                oldest == reader.minimum_epoch,
                c == reader.channels(),
                c > 0,
                self@.same_but_place(reader),
                self@.channels() == c,
                self@.minimum_epoch == oldest,
                pipe_moved(start, *pipe),
                start.held() is None ==> pipe.held() is None,
                pipe.incoming().placed(),
                *visible <= pipe.arrived(),
                *visible <= first_visible,
                destination matches Some(d) ==> d@.len() == c,
                forall|slack: int| #[trigger]
                    could_return(start, *pipe, slack) ==> take(
                        taking(reader, start, first_visible, first_current, first_consumed, slack),
                        oldest,
                        epoch,
                        c,
                    ) == take(
                        taking(
                            self@,
                            *pipe,
                            *visible,
                            *current,
                            *consumed,
                            slack - given_back(start, *pipe),
                        ),
                        oldest,
                        epoch,
                        c,
                    ),
            decreases *visible, usize::MAX - pipe.at(),
        {
            let ghost here = *pipe;
            let ghost me = self@;
            let channels: usize = self.last.len();
            let offset: usize = pipe.offset();
            let window: &Window = match pipe.peek() {
                Some(window) => window,
                None => {
                    return false;
                },
            };
            assert(here.coming().len() > 0);
            assert(*window == here.coming()[0]);
            let ghost head = *window;
            let skip: usize = passed_count(window, *consumed);
            if skip > offset {
                pipe.advance(skip - offset);
                proof {
                    assert forall|slack: int| #[trigger]
                        could_return(start, *pipe, slack) implies take(
                        taking(reader, start, first_visible, first_current, first_consumed, slack),
                        oldest,
                        epoch,
                        c,
                    ) == take(
                        taking(
                            self@,
                            *pipe,
                            *visible,
                            *current,
                            *consumed,
                            slack - given_back(start, *pipe),
                        ),
                        oldest,
                        epoch,
                        c,
                    ) by {
                        assert(could_return(start, here, slack));
                        assert(taking(
                            self@,
                            *pipe,
                            *visible,
                            *current,
                            *consumed,
                            slack - given_back(start, *pipe),
                        ) == (Taking {
                            offset: skip as int,
                            ..taking(
                                me,
                                here,
                                *visible,
                                *current,
                                *consumed,
                                slack - given_back(start, here),
                            )
                        }));
                    }
                }
                continue ;
            }
            let ghost before_current = *current;
            let ghost before_visible = *visible;
            let found: Option<Frame> = find_frame(window, offset);
            let usable: bool = match found {
                Some(frame) => frame_continues(
                    window,
                    frame,
                    offset,
                    *current,
                    *consumed,
                    self.position,
                    self.minimum_epoch,
                    epoch,
                ) && has_samples(window, offset, channels),
                None => false,
            };
            let is_tail: bool = offset >= window.valid;
            if usable && self.origin.is_none() {
                self.origin = find_cursor(window, offset);
            }
            if usable && !is_tail && *consumed == u64::MAX {
                proof {
                    assert forall|slack: int| #[trigger]
                        could_return(start, *pipe, slack) implies take(
                        taking(reader, start, first_visible, first_current, first_consumed, slack),
                        oldest,
                        epoch,
                        c,
                    ) == (
                        taking(
                            self@,
                            *pipe,
                            *visible,
                            *current,
                            *consumed,
                            slack - given_back(start, *pipe),
                        ),
                        None::<Seq<i32>>,
                    ) by {
                        assert(could_return(start, here, slack));
                    }
                }
                return false;
            }
            if !usable || is_tail {
                match found {
                    Some(frame) => {
                        if usable {
                            self.position = Some(frame.position);
                            *current = frame.position.current;
                        }
                    },
                    None => {},
                }
                *visible = *visible - 1;
                let given: bool = pipe.retire();
                proof {
                    assert forall|slack: int| #[trigger]
                        could_return(start, *pipe, slack) implies take(
                        taking(reader, start, first_visible, first_current, first_consumed, slack),
                        oldest,
                        epoch,
                        c,
                    ) == take(
                        taking(
                            self@,
                            *pipe,
                            *visible,
                            *current,
                            *consumed,
                            slack - given_back(start, *pipe),
                        ),
                        oldest,
                        epoch,
                        c,
                    ) by {
                        lemma_after_retire(
                            self@,
                            start,
                            here,
                            *pipe,
                            before_visible,
                            *current,
                            *consumed,
                            slack,
                        );
                    }
                }
                if !given {
                    return false;
                }
                continue ;
            }
            assert(offset * channels + channels <= window.pcm@.len());
            let available: usize = window.pcm.len();
            assert(offset * channels <= available);
            let ghost samples = chunk(head.pcm@, offset as int, c);
            match destination {
                Some(d) => {
                    copy_samples(d, window.pcm.as_slice(), offset * channels);
                    assert(d@ == samples);
                },
                None => {},
            }
            match found {
                Some(frame) => {
                    self.position = Some(frame.position);
                    *current = frame.position.current;
                },
                None => {},
            }
            *consumed = *consumed + 1;
            let done: bool = offset + 1 == window.valid && window.skipped_tail.is_none();
            pipe.advance(1);
            let ghost advanced = *pipe;
            if done {
                *visible = *visible - 1;
                let _ = pipe.retire();
            }
            proof {
                assert forall|slack: int| #[trigger]
                    could_return(start, *pipe, slack) implies take(
                    taking(reader, start, first_visible, first_current, first_consumed, slack),
                    oldest,
                    epoch,
                    c,
                ) == (
                    taking(
                        self@,
                        *pipe,
                        *visible,
                        *current,
                        *consumed,
                        slack - given_back(start, *pipe),
                    ),
                    Some(samples),
                ) by {
                    if done {
                        lemma_after_retire(
                            self@,
                            start,
                            advanced,
                            *pipe,
                            before_visible,
                            *current,
                            *consumed,
                            slack,
                        );
                    }
                    assert(could_return(start, here, slack));
                }
            }
            return true;
        }
        false
    }
}

/// A rendering in progress.
#[verifier::ext_equal]
pub struct Playing {
    pub taking: Taking,
    pub last: Seq<i32>,
    pub counters: CadenceCounters,
    pub inserted: int,
    pub dropped: int,
    pub missing: int,
}

/// One output frame, and the rendering after it. A repeated frame takes nothing.
/// A skipping frame drops one and plays the next; without a next it repeats the
/// last. A frame that is missing is silent.
pub open spec fn play_one(
    p: Playing,
    schedule: CorrectionSchedule,
    measured: bool,
    minimum_epoch: u64,
    epoch: u64,
) -> (Playing, Seq<i32>) {
    let channels = p.last.len() as int;
    let (step, counters) = cadence_step(schedule, measured, p.counters);
    match step {
        CadenceStep::Repeat => (Playing { counters, inserted: p.inserted + 1, ..p }, p.last),
        CadenceStep::Follow => {
            let (taking, frame) = take(p.taking, minimum_epoch, epoch, channels);
            match frame {
                Some(samples) => (Playing { taking, last: samples, counters, ..p }, samples),
                None => (
                    Playing { taking, counters, missing: p.missing + 1, ..p },
                    Seq::new(channels as nat, |i: int| 0i32),
                ),
            }
        },
        CadenceStep::Skip => {
            let (between, skipped) = take(p.taking, minimum_epoch, epoch, channels);
            let (taking, frame) = take(between, minimum_epoch, epoch, channels);
            let dropped = p.dropped + if skipped is Some {
                1int
            } else {
                0
            };
            match frame {
                Some(samples) => (
                    Playing { taking, last: samples, counters, dropped, ..p },
                    samples,
                ),
                None => (Playing { taking, counters, dropped, ..p }, p.last),
            }
        },
    }
}

/// So many output frames, one after the other.
pub open spec fn play(
    p: Playing,
    frames: int,
    schedule: CorrectionSchedule,
    measured: bool,
    minimum_epoch: u64,
    epoch: u64,
) -> (Playing, Seq<i32>)
    decreases frames,
{
    if frames <= 0 {
        (p, Seq::empty())
    } else {
        let (before, output) = play(p, frames - 1, schedule, measured, minimum_epoch, epoch);
        let (after, frame) = play_one(before, schedule, measured, minimum_epoch, epoch);
        (after, output + frame)
    }
}

/// The rendering of a reader at a pipe.
pub open spec fn playing(
    reader: ReaderState,
    pipe: DeviceSide,
    visible: usize,
    current: u64,
    consumed: u64,
    slack: int,
    done: FrameCounts,
) -> Playing {
    Playing {
        taking: taking(reader, pipe, visible, current, consumed, slack),
        last: reader.last,
        counters: reader.counters,
        inserted: done.inserted as int,
        dropped: done.dropped as int,
        missing: done.missing as int,
    }
}

/// Frames that were not simply followed.
#[derive(Clone, Copy, Debug, PartialEq, Eq, Structural)]
pub struct FrameCounts {
    pub inserted: usize,
    pub dropped: usize,
    pub missing: usize,
}

pub(crate) fn fill_silent(destination: &mut [i32])
    ensures
        final(destination)@ == Seq::new(old(destination)@.len(), |i: int| 0i32),
{
    let length: usize = destination.len();
    let mut i: usize = 0;
    while i < length
        invariant
            i <= length,
            length == destination@.len(),
            length == old(destination)@.len(),
            forall|k: int| 0 <= k < i ==> destination@[k] == 0,
        decreases length - i,
    {
        destination[i] = 0;
        i += 1;
    }
    assert(destination@ =~= Seq::new(length as nat, |i: int| 0i32));
}

impl Reader {
    /// Keep the frame that was just output.
    fn remember(&mut self, frame: &[i32])
        requires
            frame@.len() == old(self)@.channels(),
        ensures
            final(self)@ == (ReaderState { last: frame@, ..old(self)@ }),
    {
        copy_samples(self.last.as_mut_slice(), frame, 0);
        assert(frame@.subrange(0, frame@.len() as int) =~= frame@);
    }

    /// Output one frame.
    #[verifier::rlimit(60)]
    fn play_frame(
        &mut self,
        pipe: &mut DeviceSide,
        destination: &mut [i32],
        measured: bool,
        visible: &mut usize,
        epoch: u64,
        current: &mut u64,
        consumed: &mut u64,
        counts: &mut FrameCounts,
    )
        requires
            old(self)@.channels() > 0,
            old(destination)@.len() == old(self)@.channels(),
            old(pipe).incoming().placed(),
            *old(visible) <= old(pipe).arrived(),
            old(counts).inserted < usize::MAX,
            old(counts).dropped < usize::MAX,
            old(counts).missing < usize::MAX,
        ensures
            pipe_moved(*old(pipe), *final(pipe)),
            final(pipe).incoming().placed(),
            *final(visible) <= *old(visible),
            *final(visible) <= final(pipe).arrived(),
            final(destination)@.len() == old(destination)@.len(),
            final(self)@.channels() == old(self)@.channels(),
            final(self)@.schedule == old(self)@.schedule,
            final(self)@.minimum_epoch == old(self)@.minimum_epoch,
            final(self)@.timeline == old(self)@.timeline,
            final(counts).inserted <= old(counts).inserted + 1,
            final(counts).dropped <= old(counts).dropped + 1,
            final(counts).missing <= old(counts).missing + 1,
            forall|slack: int| #[trigger]
                could_return(*old(pipe), *final(pipe), slack) ==> play_one(
                    playing(
                        old(self)@,
                        *old(pipe),
                        *old(visible),
                        *old(current),
                        *old(consumed),
                        slack,
                        *old(counts),
                    ),
                    old(self)@.schedule,
                    measured,
                    old(self)@.minimum_epoch,
                    epoch,
                ) == (
                    playing(
                        final(self)@,
                        *final(pipe),
                        *final(visible),
                        *final(current),
                        *final(consumed),
                        slack - given_back(*old(pipe), *final(pipe)),
                        *final(counts),
                    ),
                    final(destination)@,
                ),
    {
        let ghost start = *pipe;
        let (step, counters): (CadenceStep, CadenceCounters) = next_cadence_step(
            self.schedule,
            measured,
            self.counters,
        );
        self.counters = counters;
        match step {
            CadenceStep::Repeat => {
                copy_samples(destination, self.last.as_slice(), 0);
                assert(destination@ =~= self.last@);
                counts.inserted = counts.inserted + 1;
            },
            CadenceStep::Follow => {
                if self.take_frame(
                    pipe,
                    Some(&mut *destination),
                    visible,
                    epoch,
                    current,
                    consumed,
                ) {
                    self.remember(destination);
                } else {
                    fill_silent(destination);
                    counts.missing = counts.missing + 1;
                }
            },
            CadenceStep::Skip => {
                if self.take_frame(pipe, None, visible, epoch, current, consumed) {
                    counts.dropped = counts.dropped + 1;
                }
                let ghost between = *pipe;
                if self.take_frame(
                    pipe,
                    Some(&mut *destination),
                    visible,
                    epoch,
                    current,
                    consumed,
                ) {
                    self.remember(destination);
                } else {
                    copy_samples(destination, self.last.as_slice(), 0);
                    assert(destination@ =~= self.last@);
                }
                proof {
                    assert forall|slack: int| #[trigger]
                        could_return(start, *pipe, slack) implies could_return(
                        start,
                        between,
                        slack,
                    ) && could_return(between, *pipe, slack - given_back(start, between)) by {}
                }
            },
        }
    }
}

/// The reader as it begins a rendering: notices taken into account, and the
/// wanted schedule taken over. A clear or a new timeline begins a new timeline
/// with a fresh cadence; only a clear forgets the last frame. Without a plan the
/// cadence is reset; a plan is taken over under a measured timestamp only, and a
/// plan that is already being followed keeps its counters.
pub open spec fn begun(
    r: ReaderState,
    view: GateView,
    measured: bool,
    wanted: Option<CorrectionSchedule>,
) -> ReaderState {
    let broken = view.says().revoked || view.says().reanchored;
    let fresh = CadenceCounters { insert: 0, drop: 0 };
    let noticed = ReaderState {
        last: if view.says().revoked {
            Seq::new(r.last.len(), |i: int| 0i32)
        } else {
            r.last
        },
        position: if broken {
            None
        } else {
            r.position
        },
        minimum_epoch: if view.says().reanchored {
            view.says().epoch
        } else {
            r.minimum_epoch
        },
        timeline: if broken {
            view.says().epoch
        } else {
            r.timeline
        },
        schedule: if broken {
            steady()
        } else {
            r.schedule
        },
        counters: if broken {
            fresh
        } else {
            r.counters
        },
        origin: if broken {
            None
        } else {
            match r.position {
                Some(position) => Some(position.cursor_us),
                None => None,
            }
        },
    };
    match wanted {
        None => ReaderState { schedule: steady(), counters: fresh, ..noticed },
        Some(plan) => if measured && plan != noticed.schedule {
            ReaderState {
                schedule: plan,
                counters: CadenceCounters {
                    insert: plan.insert_every_n_frames,
                    drop: plan.drop_every_n_frames,
                },
                ..noticed
            }
        } else {
            noticed
        },
    }
}

/// Whether samples make up whole frames.
pub open spec fn whole_frames(samples: Seq<i32>, reader: ReaderState) -> bool {
    samples.len() as int % reader.channels() == 0
}

/// What a rendering leaves for the shared state.
#[derive(Clone, Copy, Debug, PartialEq, Eq, Structural)]
pub struct Reached {
    pub current: u64,
    pub consumed: u64,
}

/// A rendering, exactly: from the reading of the control gate, the current source and the
/// frames consumed before, to the output, the counts and what was reached.
pub open spec fn renders(
    before: ReaderState,
    after: ReaderState,
    pipe_before: DeviceSide,
    pipe_after: DeviceSide,
    visible_before: usize,
    visible_after: usize,
    view: GateView,
    started: Reached,
    reached: Reached,
    measured: bool,
    wanted: Option<CorrectionSchedule>,
    output: Seq<i32>,
    rendered: Rendered,
) -> bool {
    let ready = begun(before, view, measured, wanted);
    let frames = output.len() as int / before.channels();
    forall|slack: int| #[trigger]
        could_return(pipe_before, pipe_after, slack) ==> {
            let (end, samples) = play(
                playing(
                    ready,
                    pipe_before,
                    visible_before,
                    started.current,
                    started.consumed,
                    slack,
                    FrameCounts { inserted: 0, dropped: 0, missing: 0 },
                ),
                frames,
                ready.schedule,
                measured,
                ready.minimum_epoch,
                view.says().epoch,
            );
            &&& samples == output
            &&& end == playing(
                after,
                pipe_after,
                visible_after,
                reached.current,
                reached.consumed,
                slack - given_back(pipe_before, pipe_after),
                FrameCounts {
                    inserted: rendered.inserted,
                    dropped: rendered.dropped,
                    missing: rendered.missing,
                },
            )
            &&& after.schedule == ready.schedule
            &&& after.minimum_epoch == ready.minimum_epoch
            &&& after.timeline == ready.timeline
            &&& rendered.consumed == reached.consumed - started.consumed
            &&& rendered.source_cursor_us == after.origin
        }
}

/// What a rendering took from the shared memory and left there: the control gate showed
/// its view, whose notices were answered; the current source and the frames consumed were
/// read as it began, and stored as it ended, with the place that was reached.
pub open spec fn exchanged(
    gate: ControlGate,
    checkpoint: PublishedCheckpoint,
    progress: AtomicU64,
    view: GateView,
    started: Reached,
    reached: Reached,
    place: Option<SourcePosition>,
) -> bool {
    &&& gate.shows(view)
    &&& view.says().reanchored ==> gate.acknowledges()
    &&& view.says().revoked ==> gate.releases_current()
    &&& exists|later: GateView| #[trigger]
        gate.shows_again(later) && later.current == started.current
    &&& got_u64(progress, started.consumed)
    &&& put_u64(progress, reached.consumed)
    &&& place matches Some(position) ==> {
        &&& gate.makes_current(position.current)
        &&& exists|later: GateView| #[trigger]
            gate.shows(later) && checkpoint.writes(position, later.says().epoch)
    }
    &&& gate.makes_current(reached.current)
}

/// Source frames are played by number: every frame that is taken is the next one,
/// so that none is played twice and none is left out, and where none is taken
/// none is counted.
pub proof fn frames_are_taken_by_number(t: Taking, minimum_epoch: u64, epoch: u64, channels: int)
    ensures
        take(t, minimum_epoch, epoch, channels).0.consumed >= t.consumed,
        take(t, minimum_epoch, epoch, channels).0.consumed == t.consumed + if take(
            t,
            minimum_epoch,
            epoch,
            channels,
        ).1 is Some {
            1int
        } else {
            0
        },
    decreases
            t.visible,
            if t.windows.len() > 0 && passed(t.windows[0], t.consumed) > t.offset {
                1int
            } else {
                0
            },
{
    if t.visible <= 0 || t.blocked || t.windows.len() == 0 {
    } else {
        let window = t.windows[0];
        let skip = passed(window, t.consumed);
        if skip > t.offset {
            frames_are_taken_by_number(Taking { offset: skip, ..t }, minimum_epoch, epoch, channels);
        } else {
            match frame_at(window, t.offset) {
                None => {
                    frames_are_taken_by_number(without_head(t), minimum_epoch, epoch, channels);
                },
                Some(frame) => {
                    if !continues(window, frame, t, minimum_epoch, epoch) || !holds_samples(
                        window,
                        t.offset,
                        channels,
                    ) {
                        frames_are_taken_by_number(without_head(t), minimum_epoch, epoch, channels);
                    } else if t.offset >= window.valid {
                        let origin = match t.origin {
                            Some(cursor) => Some(cursor),
                            None => cursor_at(window, t.offset),
                        };
                        let moved = Taking {
                            origin,
                            position: Some(frame.position),
                            current: frame.position.current,
                            ..t
                        };
                        frames_are_taken_by_number(without_head(moved), minimum_epoch, epoch, channels);
                    }
                },
            }
        }
    }
}

impl Reader {
    /// Begin a rendering.
    fn begin(&mut self, view: GateView, measured: bool, wanted: Option<CorrectionSchedule>)
        ensures
            final(self)@ == begun(old(self)@, view, measured, wanted),
    {
        let cleared: bool = view.current_revoked();
        let reanchored: bool = view.timeline_reanchored();
        self.origin = match self.position {
            Some(position) if !cleared && !reanchored => Some(position.cursor_us),
            _ => None,
        };
        if cleared || reanchored {
            self.timeline = view.epoch();
            self.position = None;
            self.reset_cadence();
        }
        if reanchored {
            self.minimum_epoch = view.epoch();
        }
        if cleared {
            fill_silent(self.last.as_mut_slice());
        }
        match wanted {
            None => {
                self.reset_cadence();
            },
            Some(plan) => {
                if measured && plan != self.schedule {
                    self.schedule = plan;
                    self.counters = CadenceCounters {
                        insert: plan.insert_every_n_frames,
                        drop: plan.drop_every_n_frames,
                    };
                }
            },
        }
    }

    /// Output so many frames, one after the other.
    #[verifier::rlimit(60)]
    fn play_frames(
        &mut self,
        pipe: &mut DeviceSide,
        output: &mut [i32],
        measured: bool,
        visible: &mut usize,
        epoch: u64,
        current: &mut u64,
        consumed: &mut u64,
    ) -> (counts: FrameCounts)
        requires
            old(self)@.channels() > 0,
            whole_frames(old(output)@, old(self)@),
            old(pipe).incoming().placed(),
            *old(visible) <= old(pipe).arrived(),
        ensures
            pipe_moved(*old(pipe), *final(pipe)),
            final(pipe).incoming().placed(),
            *final(visible) <= *old(visible),
            *final(visible) <= final(pipe).arrived(),
            final(output)@.len() == old(output)@.len(),
            final(self)@.channels() == old(self)@.channels(),
            final(self)@.schedule == old(self)@.schedule,
            final(self)@.minimum_epoch == old(self)@.minimum_epoch,
            final(self)@.timeline == old(self)@.timeline,
            forall|slack: int| #[trigger]
                could_return(*old(pipe), *final(pipe), slack) ==> play(
                    playing(
                        old(self)@,
                        *old(pipe),
                        *old(visible),
                        *old(current),
                        *old(consumed),
                        slack,
                        FrameCounts { inserted: 0, dropped: 0, missing: 0 },
                    ),
                    old(output)@.len() as int / old(self)@.channels(),
                    old(self)@.schedule,
                    measured,
                    old(self)@.minimum_epoch,
                    epoch,
                ) == (
                    playing(
                        final(self)@,
                        *final(pipe),
                        *final(visible),
                        *final(current),
                        *final(consumed),
                        slack - given_back(*old(pipe), *final(pipe)),
                        counts,
                    ),
                    final(output)@,
                ),
    {
        let ghost reader = self@;
        let ghost start = *pipe;
        let ghost first_visible = *visible;
        let ghost first_current = *current;
        let ghost first_consumed = *consumed;
        let channels: usize = self.last.len();
        let total: usize = output.len();
        let frames: usize = total / channels;
        let ghost c = channels as int;
        proof {
            lemma_whole_frames(total as int, c);
        }
        let mut counts = FrameCounts { inserted: 0, dropped: 0, missing: 0 };
        let mut i: usize = 0;
        assert(output@.take(0) =~= Seq::<i32>::empty());
        assert(0 * c == 0);
        while i < frames
            invariant
                reader == old(self)@,
                start == *old(pipe),
                first_visible == *old(visible),
                first_current == *old(current),
                first_consumed == *old(consumed),
                c == channels,
                channels > 0,
                total == frames * c,
                total == output@.len(),
                i <= frames,
                self@.channels() == c,
                reader.channels() == c,
                self@.schedule == reader.schedule,
                self@.minimum_epoch == reader.minimum_epoch,
                self@.timeline == reader.timeline,
                pipe_moved(start, *pipe),
                pipe.incoming().placed(),
                *visible <= pipe.arrived(),
                *visible <= first_visible,
                counts.inserted <= i,
                counts.dropped <= i,
                counts.missing <= i,
                forall|slack: int| #[trigger]
                    could_return(start, *pipe, slack) ==> play(
                        playing(
                            reader,
                            start,
                            first_visible,
                            first_current,
                            first_consumed,
                            slack,
                            FrameCounts { inserted: 0, dropped: 0, missing: 0 },
                        ),
                        i as int,
                        reader.schedule,
                        measured,
                        reader.minimum_epoch,
                        epoch,
                    ) == (
                        playing(
                            self@,
                            *pipe,
                            *visible,
                            *current,
                            *consumed,
                            slack - given_back(start, *pipe),
                            counts,
                        ),
                        output@.take(i * c),
                    ),
            decreases frames - i,
        {
            let ghost here = *pipe;
            let ghost written = output@;
            proof {
                lemma_chunk_bounds(i as int, frames as int, c);
            }
            let (earlier, rest) = output.split_at_mut(i * channels);
            let (destination, later) = rest.split_at_mut(channels);
            self.play_frame(
                pipe,
                destination,
                measured,
                visible,
                epoch,
                current,
                consumed,
                &mut counts,
            );
            proof {
                assert(output@.take(i * c) =~= written.take(i * c));
                assert(output@.take((i + 1) * c) =~= output@.take(i * c) + chunk(
                    output@,
                    i as int,
                    c,
                ));
                assert forall|slack: int| #[trigger]
                    could_return(start, *pipe, slack) implies play(
                    playing(
                        reader,
                        start,
                        first_visible,
                        first_current,
                        first_consumed,
                        slack,
                        FrameCounts { inserted: 0, dropped: 0, missing: 0 },
                    ),
                    i + 1,
                    reader.schedule,
                    measured,
                    reader.minimum_epoch,
                    epoch,
                ) == (
                    playing(
                        self@,
                        *pipe,
                        *visible,
                        *current,
                        *consumed,
                        slack - given_back(start, *pipe),
                        counts,
                    ),
                    output@.take((i + 1) * c),
                ) by {
                    assert(could_return(start, here, slack));
                    assert(could_return(here, *pipe, slack - given_back(start, here)));
                }
            }
            i += 1;
        }
        assert(output@.take(frames * c) =~= output@);
        counts
    }

    /// Render from what was read of the shared state. The reading of the control gate, the
    /// current source and the frames consumed so far are handed in; what was
    /// reached is handed back, to be published.
    pub fn render_from(
        &mut self,
        pipe: &mut DeviceSide,
        view: GateView,
        started: Reached,
        output: &mut [i32],
        measured: bool,
        wanted: Option<CorrectionSchedule>,
        visible: &mut usize,
    ) -> (result: (Rendered, Reached))
        requires
            old(self)@.channels() > 0,
            whole_frames(old(output)@, old(self)@),
            old(pipe).incoming().placed(),
            *old(visible) <= old(pipe).arrived(),
            measured && wanted is Some ==> !wanted->0.reanchor,
        ensures
            renders(
                old(self)@,
                final(self)@,
                *old(pipe),
                *final(pipe),
                *old(visible),
                *final(visible),
                view,
                started,
                result.1,
                measured,
                wanted,
                final(output)@,
                result.0,
            ),
            pipe_moved(*old(pipe), *final(pipe)),
            final(pipe).incoming().placed(),
            *final(visible) <= *old(visible),
            *final(visible) <= final(pipe).arrived(),
            final(output)@.len() == old(output)@.len(),
            final(self)@.channels() == old(self)@.channels(),
    {
        self.begin(view, measured, wanted);
        let ghost ready = self@;
        let ghost start = *pipe;
        let ghost first_visible = *visible;
        let ghost frames = output@.len() as int / self@.channels();
        let mut current: u64 = started.current;
        let mut consumed: u64 = started.consumed;
        let counts: FrameCounts = self.play_frames(
            pipe,
            output,
            measured,
            visible,
            view.epoch(),
            &mut current,
            &mut consumed,
        );
        proof {
            let slack = given_back(start, *pipe);
            assert(could_return(start, *pipe, slack));
            lemma_play_consumes(
                playing(
                    ready,
                    start,
                    first_visible,
                    started.current,
                    started.consumed,
                    slack,
                    FrameCounts { inserted: 0, dropped: 0, missing: 0 },
                ),
                frames,
                ready.schedule,
                measured,
                ready.minimum_epoch,
                view.says().epoch,
            );
        }
        let rendered = Rendered {
            consumed: consumed - started.consumed,
            missing: counts.missing,
            inserted: counts.inserted,
            dropped: counts.dropped,
            source_cursor_us: self.origin,
        };
        (rendered, Reached { current, consumed })
    }

    /// Render within a callback, for at most `visible` windows. What was read of
    /// the shared state decides the rest: the output is the one that belongs to
    /// the view that the control gate showed, and to the current source and the frames
    /// consumed that were read.
    pub fn render_with_budget(
        &mut self,
        pipe: &mut DeviceSide,
        callback: &CallbackGuard<'_>,
        checkpoint: &PublishedCheckpoint,
        progress: &AtomicU64,
        output: &mut [i32],
        measured: bool,
        wanted: Option<CorrectionSchedule>,
        visible: &mut usize,
    ) -> (rendered: Rendered)
        requires
            old(self)@.channels() > 0,
            whole_frames(old(output)@, old(self)@),
            old(pipe).incoming().placed(),
            *old(visible) <= old(pipe).arrived(),
            measured && wanted is Some ==> !wanted->0.reanchor,
        ensures
            exists|view: GateView, started: Reached, reached: Reached|
                renders(
                    old(self)@,
                    final(self)@,
                    *old(pipe),
                    *final(pipe),
                    *old(visible),
                    *final(visible),
                    view,
                    started,
                    reached,
                    measured,
                    wanted,
                    final(output)@,
                    rendered,
                ) && #[trigger] exchanged(
                    *callback.of(),
                    *checkpoint,
                    *progress,
                    view,
                    started,
                    reached,
                    final(self)@.position,
                ),
            pipe_moved(*old(pipe), *final(pipe)),
            final(pipe).incoming().placed(),
            *final(visible) <= *old(visible),
            *final(visible) <= final(pipe).arrived(),
            final(output)@.len() == old(output)@.len(),
            final(self)@.channels() == old(self)@.channels(),
    {
        let view = callback.view();
        if view.timeline_reanchored() {
            callback.acknowledge_reanchor();
        }
        if view.current_revoked() {
            callback.finish_current();
        }
        let later = callback.view_again();
        let consumed: u64 = progress.load(Ordering::Acquire);
        let started = Reached { current: later.current(), consumed };
        let (rendered, reached): (Rendered, Reached) = self.render_from(
            pipe,
            view,
            started,
            output,
            measured,
            wanted,
            visible,
        );
        progress.store(reached.consumed, Ordering::Release);
        match self.position {
            Some(position) => {
                checkpoint.publish(callback, position);
            },
            None => {},
        }
        callback.publish_current(reached.current);
        assert(exchanged(
            *callback.of(),
            *checkpoint,
            *progress,
            view,
            started,
            reached,
            self@.position,
        ));
        rendered
    }

    /// Render within a callback, for the windows that have arrived on entry.
    pub fn render(
        &mut self,
        pipe: &mut DeviceSide,
        callback: &CallbackGuard<'_>,
        checkpoint: &PublishedCheckpoint,
        progress: &AtomicU64,
        output: &mut [i32],
        measured: bool,
        wanted: Option<CorrectionSchedule>,
    ) -> (rendered: Rendered)
        requires
            old(self)@.channels() > 0,
            whole_frames(old(output)@, old(self)@),
            old(pipe).incoming().placed(),
            measured && wanted is Some ==> !wanted->0.reanchor,
        ensures
            final(output)@.len() == old(output)@.len(),
            final(self)@.channels() == old(self)@.channels(),
            final(pipe).incoming().placed(),
            final(pipe).incoming().stream() == old(pipe).incoming().stream(),
            exists|
                entered: DeviceSide,
                budget: usize,
                left: usize,
                view: GateView,
                started: Reached,
                reached: Reached,
            |
                exchanged(
                    *callback.of(),
                    *checkpoint,
                    *progress,
                    view,
                    started,
                    reached,
                    final(self)@.position,
                ) && enters_lane(*old(pipe), entered, budget) && pipe_moved(entered, *final(pipe))
                    && #[trigger] renders(
                    old(self)@,
                    final(self)@,
                    entered,
                    *final(pipe),
                    budget,
                    left,
                    view,
                    started,
                    reached,
                    measured,
                    wanted,
                    final(output)@,
                    rendered,
                ),
    {
        let mut visible: usize = pipe.enter();
        let ghost entered = *pipe;
        let ghost budget = visible;
        let rendered = self.render_with_budget(
            pipe,
            callback,
            checkpoint,
            progress,
            output,
            measured,
            wanted,
            &mut visible,
        );
        rendered
    }

    /// The version that began the present timeline.
    pub fn present_timeline(&self) -> (timeline: u64)
        ensures
            timeline == self@.timeline,
    {
        self.timeline
    }

    /// Where the device is, if it has played since the last break.
    pub fn place(&self) -> (position: Option<SourcePosition>)
        ensures
            position == self@.position,
    {
        self.position
    }

    pub fn cadence_counters(&self) -> (counters: CadenceCounters)
        ensures
            counters == self@.counters,
    {
        self.counters
    }

    /// The frame that was output last.
    pub fn last_frame(&self) -> (frame: &[i32])
        ensures
            frame@ == self@.last,
    {
        self.last.as_slice()
    }

    /// The frames that an output holds.
    pub fn frames_in(&self, output: &[i32]) -> (frames: usize)
        requires
            self@.channels() > 0,
        ensures
            frames == output@.len() as int / self@.channels(),
    {
        output.len() / self.last.len()
    }

    /// The version that begins the timeline that this callback plays.
    pub fn timeline(&self, callback: &CallbackGuard<'_>) -> (timeline: u64)
        ensures
            exists|found: GateView| #[trigger]
                callback.of().shows(found) && timeline == begun(
                    self@,
                    found,
                    false,
                    None,
                ).timeline,
    {
        let view = callback.view();
        self.timeline_under(view)
    }

    /// The version that begins the timeline under a reading of the control gate.
    pub fn timeline_under(&self, view: GateView) -> (timeline: u64)
        ensures
            timeline == begun(self@, view, false, None).timeline,
    {
        if view.current_revoked() || view.timeline_reanchored() {
            view.epoch()
        } else {
            self.timeline
        }
    }
}

proof fn lemma_whole_frames(total: int, channels: int)
    requires
        channels > 0,
        total >= 0,
        total % channels == 0,
    ensures
        total == (total / channels) * channels,
        total / channels <= total,
{
    assert(total == (total / channels) * channels && total / channels <= total)
        by (nonlinear_arith)
        requires
            channels > 0,
            total >= 0,
            total % channels == 0,
    ;
}

proof fn lemma_play_consumes(
    p: Playing,
    frames: int,
    schedule: CorrectionSchedule,
    measured: bool,
    minimum_epoch: u64,
    epoch: u64,
)
    ensures
        play(p, frames, schedule, measured, minimum_epoch, epoch).0.taking.consumed
            >= p.taking.consumed,
    decreases frames,
{
    if frames > 0 {
        lemma_play_consumes(p, frames - 1, schedule, measured, minimum_epoch, epoch);
        let before = play(p, frames - 1, schedule, measured, minimum_epoch, epoch).0;
        let channels = before.last.len() as int;
        frames_are_taken_by_number(before.taking, minimum_epoch, epoch, channels);
        frames_are_taken_by_number(
            take(before.taking, minimum_epoch, epoch, channels).0,
            minimum_epoch,
            epoch,
            channels,
        );
    }
}

/// The device plays what was prepared: standing where a window's frame begins, in
/// the window's own version, it takes exactly the frame that the source would
/// have given, and stands where the source would stand. Together with
/// `a_position_restores_the_source` this closes the circle: from the device's
/// position alone the owner recovers the source that the device has reached.
pub proof fn the_device_plays_what_was_prepared(
    s: Source,
    blank: Window,
    window: Window,
    t: Taking,
    minimum_epoch: u64,
    epoch: u64,
    channels: int,
    rate: int,
)
    requires
        channels > 0,
        fills(s, blank, window, channels, rate),
        window.epoch == epoch,
        minimum_epoch <= epoch,
        t.windows.len() > 0,
        t.windows[0] == window,
        t.visible > 0,
        !t.blocked,
        0 <= t.offset < window.valid,
        t.consumed == window.source_base + t.offset,
        t.consumed < u64::MAX,
        t.current == source_after(s, t.offset, channels, rate).current_id(),
        t.position is None || t.position == Some(
            position_of(source_after(s, t.offset, channels, rate)),
        ),
    ensures
        take(t, minimum_epoch, epoch, channels).1 == next_frame(
            source_after(s, t.offset, channels, rate),
            channels,
            rate,
        ),
        take(t, minimum_epoch, epoch, channels).1 is Some,
        take(t, minimum_epoch, epoch, channels).0.position == Some(
            position_of(source_after(s, t.offset + 1, channels, rate)),
        ),
        take(t, minimum_epoch, epoch, channels).0.current == source_after(
            s,
            t.offset + 1,
            channels,
            rate,
        ).current_id(),
        take(t, minimum_epoch, epoch, channels).0.consumed == t.consumed + 1,
{
    let k = t.offset;
    lemma_chunk_bounds(k, window.frames@.len() as int, channels);
    assert(chunk(window.pcm@, k, channels) == next_frame(
        source_after(s, k, channels, rate),
        channels,
        rate,
    )->0);
    assert(window.frames@[k] == frame_between(
        source_after(s, k, channels, rate),
        source_after(s, k + 1, channels, rate),
        channels,
    ));
}

/// Nothing that was prepared for another version begins a source: once the
/// current source is gone, as after a clear, no frame and no tail of an older
/// window is taken.
pub proof fn a_revoked_window_never_resumes(
    s: Source,
    blank: Window,
    window: Window,
    t: Taking,
    minimum_epoch: u64,
    epoch: u64,
    channels: int,
    rate: int,
)
    requires
        channels > 0,
        fills(s, blank, window, channels, rate),
        s.identified(),
        window.epoch != epoch,
        t.current == 0,
        t.offset >= 0,
    ensures
        frame_at(window, t.offset) matches Some(frame) ==> !continues(
            window,
            frame,
            t,
            minimum_epoch,
            epoch,
        ),
{
    match frame_at(window, t.offset) {
        Some(frame) => {
            let k = if t.offset < window.valid && t.offset < window.frames@.len() {
                t.offset
            } else {
                window.valid as int
            };
            let here = source_after(s, k, channels, rate);
            assert(frame == frame_between(
                here,
                source_after(s, k + 1, channels, rate),
                channels,
            ));
            if here.current is None {
                assert(here.left() == 0);
                assert(0int / channels == 0) by (nonlinear_arith)
                    requires
                        channels > 0,
                ;
            } else {
                lemma_current_is_identified(s, k, channels, rate);
            }
        },
        None => {},
    }
}

/// The frames of a rendering balance: every source frame that is consumed is output or
/// dropped, and every other output frame is inserted or missing, or repeats the last one
/// where a drop left none to follow. Without drops nothing is repeated for that.
pub proof fn frames_balance(
    p: Playing,
    frames: int,
    schedule: CorrectionSchedule,
    measured: bool,
    minimum_epoch: u64,
    epoch: u64,
)
    requires
        frames >= 0,
    ensures
        ({
            let end = play(p, frames, schedule, measured, minimum_epoch, epoch).0;
            let consumed = end.taking.consumed - p.taking.consumed;
            let inserted = end.inserted - p.inserted;
            let dropped = end.dropped - p.dropped;
            let missing = end.missing - p.missing;
            &&& consumed >= dropped >= 0 && inserted >= 0 && missing >= 0
            &&& consumed + inserted + missing <= frames + dropped
            &&& !measured || schedule.drop_every_n_frames == 0 ==> dropped == 0 && consumed
                + inserted + missing == frames
            &&& !measured || schedule.insert_every_n_frames == 0 ==> inserted == 0
        }),
    decreases frames,
{
    if frames > 0 {
        frames_balance(p, frames - 1, schedule, measured, minimum_epoch, epoch);
        let before = play(p, frames - 1, schedule, measured, minimum_epoch, epoch).0;
        let channels = before.last.len() as int;
        frames_are_taken_by_number(before.taking, minimum_epoch, epoch, channels);
        frames_are_taken_by_number(
            take(before.taking, minimum_epoch, epoch, channels).0,
            minimum_epoch,
            epoch,
            channels,
        );
    }
}

/// A window that was prepared, for another version than the present one.
pub open spec fn prepared_for_another(window: Window, epoch: u64, channels: int) -> bool {
    window.epoch != epoch && exists|s: Source, blank: Window, rate: int| #[trigger]
        fills(s, blank, window, channels, rate) && s.identified()
}

/// No source is current, and all windows that may be worked through were prepared for
/// another version.
pub open spec fn nothing_to_take(t: Taking, epoch: u64, channels: int) -> bool {
    &&& t.current == 0
    &&& t.offset >= 0
    &&& forall|i: int|
        0 <= i < t.windows.len() && i < t.visible ==> prepared_for_another(
            #[trigger] t.windows[i],
            epoch,
            channels,
        )
}

/// All windows that a callback may work through are given back, or one is stuck.
pub open spec fn takes_no_more(t: Taking) -> bool {
    t.visible <= 0 || t.blocked || t.windows.len() == 0
}

proof fn lemma_nothing_is_taken(t: Taking, minimum_epoch: u64, epoch: u64, channels: int)
    requires
        channels > 0,
        nothing_to_take(t, epoch, channels),
    ensures
        take(t, minimum_epoch, epoch, channels).1 is None,
        take(t, minimum_epoch, epoch, channels).0.consumed == t.consumed,
        take(t, minimum_epoch, epoch, channels).0.origin == t.origin,
        takes_no_more(take(t, minimum_epoch, epoch, channels).0),
        nothing_to_take(take(t, minimum_epoch, epoch, channels).0, epoch, channels),
    decreases
            t.visible,
            if t.windows.len() > 0 && passed(t.windows[0], t.consumed) > t.offset {
                1int
            } else {
                0
            },
{
    if t.visible <= 0 || t.blocked || t.windows.len() == 0 {
    } else {
        let window = t.windows[0];
        let skip = passed(window, t.consumed);
        if skip > t.offset {
            lemma_nothing_is_taken(Taking { offset: skip, ..t }, minimum_epoch, epoch, channels);
        } else {
            assert(prepared_for_another(window, epoch, channels));
            let (s, blank, rate) = choose|s: Source, blank: Window, rate: int| #[trigger]
                fills(s, blank, window, channels, rate) && s.identified();
            a_revoked_window_never_resumes(
                s,
                blank,
                window,
                t,
                minimum_epoch,
                epoch,
                channels,
                rate,
            );
            let next = without_head(t);
            assert forall|i: int|
                0 <= i < next.windows.len() && i < next.visible implies prepared_for_another(
                #[trigger] next.windows[i],
                epoch,
                channels,
            ) by {
                assert(next.windows[i] == t.windows[i + 1]);
            }
            lemma_nothing_is_taken(next, minimum_epoch, epoch, channels);
        }
    }
}

proof fn lemma_plays_silence(
    p: Playing,
    frames: int,
    schedule: CorrectionSchedule,
    measured: bool,
    minimum_epoch: u64,
    epoch: u64,
)
    requires
        p.last.len() > 0,
        p.last == Seq::new(p.last.len(), |i: int| 0i32),
        nothing_to_take(p.taking, epoch, p.last.len() as int),
    ensures
        ({
            let (end, output) = play(p, frames, schedule, measured, minimum_epoch, epoch);
            &&& end.taking.consumed == p.taking.consumed
            &&& end.taking.origin == p.taking.origin
            &&& end.missing >= p.missing
            &&& end.missing > p.missing ==> takes_no_more(end.taking)
            &&& end.last == p.last
            &&& nothing_to_take(end.taking, epoch, p.last.len() as int)
            &&& forall|i: int| 0 <= i < output.len() ==> output[i] == 0
        }),
    decreases frames,
{
    if frames > 0 {
        lemma_plays_silence(p, frames - 1, schedule, measured, minimum_epoch, epoch);
        let (before, output) = play(p, frames - 1, schedule, measured, minimum_epoch, epoch);
        let channels = p.last.len() as int;
        lemma_nothing_is_taken(before.taking, minimum_epoch, epoch, channels);
        let between = take(before.taking, minimum_epoch, epoch, channels).0;
        lemma_nothing_is_taken(between, minimum_epoch, epoch, channels);
        let (after, frame) = play_one(before, schedule, measured, minimum_epoch, epoch);
        assert forall|i: int| 0 <= i < (output + frame).len() implies (output + frame)[i] == 0 by {
            if i >= output.len() {
                assert((output + frame)[i] == frame[i - output.len()]);
                assert(p.last[i - output.len()] == 0);
            }
        }
    }
}

/// A rendering after a clear is silent, consumes nothing and has no source cursor, until
/// something is prepared for the new version: the clear leaves no current source, and what
/// the callback may work through was prepared for another version. Without a measured
/// timestamp every frame of it is missing. The old windows go back:
/// once a frame was asked of them, the callback has worked through all that it may, unless
/// one is stuck.
pub proof fn a_rendering_after_a_clear_is_silent(
    before: ReaderState,
    after: ReaderState,
    pipe_before: DeviceSide,
    pipe_after: DeviceSide,
    visible_before: usize,
    visible_after: usize,
    view: GateView,
    started: Reached,
    reached: Reached,
    measured: bool,
    wanted: Option<CorrectionSchedule>,
    output: Seq<i32>,
    rendered: Rendered,
)
    requires
        before.channels() > 0,
        view.says().revoked,
        started.current == 0,
        forall|i: int|
            0 <= i < pipe_before.coming().len() && i < visible_before ==> prepared_for_another(
                #[trigger] pipe_before.coming()[i],
                view.says().epoch,
                before.channels(),
            ),
        renders(
            before,
            after,
            pipe_before,
            pipe_after,
            visible_before,
            visible_after,
            view,
            started,
            reached,
            measured,
            wanted,
            output,
            rendered,
        ),
    ensures
        forall|i: int| 0 <= i < output.len() ==> output[i] == 0,
        rendered.consumed == 0,
        reached.consumed == started.consumed,
        rendered.source_cursor_us is None,
        !measured ==> rendered.missing == output.len() as int / before.channels()
            && rendered.inserted == 0 && rendered.dropped == 0,
        rendered.missing > 0 ==> visible_after == 0 || pipe_after.held() is Some
            || pipe_after.coming().len() == 0,
{
    let slack = given_back(pipe_before, pipe_after);
    assert(could_return(pipe_before, pipe_after, slack));
    let ready = begun(before, view, measured, wanted);
    let p = playing(
        ready,
        pipe_before,
        visible_before,
        started.current,
        started.consumed,
        slack,
        FrameCounts { inserted: 0, dropped: 0, missing: 0 },
    );
    assert(p.last =~= Seq::new(p.last.len(), |i: int| 0i32));
    lemma_plays_silence(
        p,
        output.len() as int / before.channels(),
        ready.schedule,
        measured,
        ready.minimum_epoch,
        view.says().epoch,
    );
    frames_balance(
        p,
        output.len() as int / before.channels(),
        ready.schedule,
        measured,
        ready.minimum_epoch,
        view.says().epoch,
    );
}

/// What one output frame of a rendering is: a frame of the source, the frame that was heard
/// before it once more, or silence. `of` is the output frame in which that one was heard,
/// where it was heard in this rendering.
pub enum Heard {
    Frame { number: int },
    Again { of: Option<int> },
    Silence,
}

/// Where a rendering stands before an output frame: the number of the next source frame, and
/// the frames that were inserted, dropped and missing so far.
pub struct Standing {
    pub at: int,
    pub inserted: int,
    pub dropped: int,
    pub missing: int,
}

/// How an output frame moves a rendering on. A frame that follows is the next source frame,
/// or missing. A repeated one takes nothing. A frame that drops one plays the one after it;
/// where that is missing, the last one is heard again.
pub open spec fn moves_on(step: CadenceStep, heard: Heard, a: Standing, b: Standing) -> bool {
    match step {
        CadenceStep::Follow => match heard {
            Heard::Frame { number } => number == a.at && b == (Standing { at: a.at + 1, ..a }),
            Heard::Silence => b == (Standing { missing: a.missing + 1, ..a }),
            Heard::Again { .. } => false,
        },
        CadenceStep::Repeat => heard is Again && b == (Standing { inserted: a.inserted + 1, ..a }),
        CadenceStep::Skip => match heard {
            Heard::Frame { number } => number == a.at + 1 && b == (Standing {
                at: a.at + 2,
                dropped: a.dropped + 1,
                ..a
            }),
            Heard::Again { .. } => b == a || b == (Standing {
                at: a.at + 1,
                dropped: a.dropped + 1,
                ..a
            }),
            Heard::Silence => false,
        },
    }
}

/// The place in a window of the source frame with a number: one of the first `within`
/// windows, of a version that still counts.
pub open spec fn holds_number(
    windows: Seq<Window>,
    within: int,
    oldest: u64,
    number: int,
    channels: int,
    window: int,
    offset: int,
) -> bool {
    &&& 0 <= window < windows.len()
    &&& window < within
    &&& windows[window].epoch >= oldest
    &&& 0 <= offset < windows[window].valid
    &&& windows[window].source_base + offset == number
    &&& offset * channels + channels <= windows[window].pcm@.len()
}

/// What the samples of an output frame are, in all channels.
pub open spec fn samples_heard(
    heard: Seq<Heard>,
    k: int,
    windows: Seq<Window>,
    within: int,
    oldest: u64,
    last: Seq<i32>,
    output: Seq<i32>,
) -> bool {
    let channels = last.len() as int;
    match heard[k] {
        Heard::Frame { number } => exists|window: int, offset: int|
            #[trigger] holds_number(windows, within, oldest, number, channels, window, offset) && (
            forall|c: int|
                0 <= c < channels ==> output[#[trigger] place(k, channels, c)]
                    == windows[window].pcm@[offset * channels + c]),
        Heard::Again { of } => match of {
            Some(j) => {
                &&& 0 <= j < k
                &&& heard[j] is Frame
                &&& forall|i: int| j < i < k ==> !(#[trigger] heard[i] is Frame)
                &&& forall|c: int|
                    0 <= c < channels ==> output[#[trigger] place(k, channels, c)] == output[place(
                        j,
                        channels,
                        c,
                    )]
            },
            None => {
                &&& forall|i: int| 0 <= i < k ==> !(#[trigger] heard[i] is Frame)
                &&& forall|c: int|
                    0 <= c < channels ==> output[#[trigger] place(k, channels, c)] == last[c]
            },
        },
        Heard::Silence => forall|c: int|
            0 <= c < channels ==> output[#[trigger] place(k, channels, c)] == 0,
    }
}

/// Where a sample of an output frame stands.
pub open spec fn place(k: int, channels: int, c: int) -> int {
    k * channels + c
}

/// A stretch of output is made of these frames, under the steps that were taken.
pub open spec fn composed(
    steps: Seq<CadenceStep>,
    heard: Seq<Heard>,
    standings: Seq<Standing>,
    windows: Seq<Window>,
    within: int,
    oldest: u64,
    last: Seq<i32>,
    output: Seq<i32>,
) -> bool {
    &&& heard.len() == steps.len()
    &&& standings.len() == steps.len() + 1
    &&& output.len() == steps.len() * last.len()
    &&& forall|k: int|
        0 <= k < steps.len() ==> moves_on(
            steps[k],
            #[trigger] heard[k],
            standings[k],
            standings[k + 1],
        )
    &&& forall|k: int|
        0 <= k < steps.len() ==> #[trigger] samples_heard(
            heard,
            k,
            windows,
            within,
            oldest,
            last,
            output,
        )
    &&& forall|j: int, k: int|
        0 <= j < k < steps.len() && starves(steps[j], #[trigger] heard[j], standings[j], standings[j
            + 1]) ==> !(#[trigger] heard[k] is Frame)
}

/// Whether an output frame asked for a source frame that was not there.
pub open spec fn starves(step: CadenceStep, heard: Heard, a: Standing, b: Standing) -> bool {
    heard is Silence || (step == CadenceStep::Skip && heard is Again)
}

/// What taking a frame comes to: the windows ahead stay, but for those that are given back;
/// the frame that is taken is the one with the next number; and where none is taken, none is
/// taken after that.
proof fn lemma_taken(t: Taking, minimum_epoch: u64, epoch: u64, channels: int) -> (found: (
    int,
    int,
    int,
))
    requires
        channels > 0,
        t.offset >= 0,
    ensures
        ({
            let (after, frame) = take(t, minimum_epoch, epoch, channels);
            let (gone, window, offset) = found;
            &&& 0 <= gone <= t.windows.len()
            &&& after.windows == t.windows.skip(gone)
            &&& after.visible == t.visible - gone
            &&& after.offset >= 0
            &&& after.consumed == t.consumed + if frame is Some {
                1int
            } else {
                0
            }
            &&& frame is None ==> take(after, minimum_epoch, epoch, channels).1 is None
            &&& t.origin is Some ==> after.origin == t.origin
            &&& frame matches Some(samples) ==> {
                &&& samples.len() == channels
                &&& after.position == Some(t.windows[window].frames@[offset].position)
                &&& after.current == t.windows[window].frames@[offset].position.current
                &&& holds_number(
                    t.windows,
                    t.visible,
                    minimum_epoch,
                    t.consumed as int,
                    channels,
                    window,
                    offset,
                )
                &&& forall|c: int|
                    0 <= c < channels ==> #[trigger] samples[c]
                        == t.windows[window].pcm@[offset * channels + c]
            }
        }),
    decreases
            t.visible,
            if t.windows.len() > 0 && passed(t.windows[0], t.consumed) > t.offset {
                2int
            } else {
                1
            },
{
    assert(t.windows.skip(0) =~= t.windows);
    if t.visible <= 0 || t.blocked || t.windows.len() == 0 {
        (0, 0, 0)
    } else {
        let window = t.windows[0];
        let skip = passed(window, t.consumed);
        if skip > t.offset {
            lemma_taken(Taking { offset: skip, ..t }, minimum_epoch, epoch, channels)
        } else {
            match frame_at(window, t.offset) {
                None => lemma_taken_behind(t, without_head(t), minimum_epoch, epoch, channels),
                Some(frame) => if !continues(window, frame, t, minimum_epoch, epoch)
                    || !holds_samples(window, t.offset, channels) {
                    lemma_taken_behind(t, without_head(t), minimum_epoch, epoch, channels)
                } else {
                    let origin = match t.origin {
                        Some(cursor) => Some(cursor),
                        None => cursor_at(window, t.offset),
                    };
                    let moved = Taking {
                        origin,
                        position: Some(frame.position),
                        current: frame.position.current,
                        ..t
                    };
                    if t.offset >= window.valid {
                        lemma_taken_behind(t, without_head(moved), minimum_epoch, epoch, channels)
                    } else if t.consumed == u64::MAX {
                        (0, 0, 0)
                    } else {
                        assert(t.windows.skip(1) == without_head(t).windows);
                        if t.offset + 1 == window.valid && window.skipped_tail is None {
                            (1, 0, t.offset)
                        } else {
                            (0, 0, t.offset)
                        }
                    }
                },
            }
        }
    }
}

/// The same, once the first window is given back.
proof fn lemma_taken_behind(
    t: Taking,
    next: Taking,
    minimum_epoch: u64,
    epoch: u64,
    channels: int,
) -> (found: (int, int, int))
    requires
        channels > 0,
        t.visible > 0,
        t.windows.len() > 0,
        next.windows == t.windows.skip(1),
        next.visible == t.visible - 1,
        next.offset == 0,
        next.consumed == t.consumed,
        t.origin is Some ==> next.origin == t.origin,
    ensures
        ({
            let (after, frame) = take(next, minimum_epoch, epoch, channels);
            let (gone, window, offset) = found;
            &&& 0 <= gone <= t.windows.len()
            &&& after.windows == t.windows.skip(gone)
            &&& after.visible == t.visible - gone
            &&& after.offset >= 0
            &&& after.consumed == t.consumed + if frame is Some {
                1int
            } else {
                0
            }
            &&& frame is None ==> take(after, minimum_epoch, epoch, channels).1 is None
            &&& t.origin is Some ==> after.origin == t.origin
            &&& frame matches Some(samples) ==> {
                &&& samples.len() == channels
                &&& after.position == Some(t.windows[window].frames@[offset].position)
                &&& after.current == t.windows[window].frames@[offset].position.current
                &&& holds_number(
                    t.windows,
                    t.visible,
                    minimum_epoch,
                    t.consumed as int,
                    channels,
                    window,
                    offset,
                )
                &&& forall|c: int|
                    0 <= c < channels ==> #[trigger] samples[c]
                        == t.windows[window].pcm@[offset * channels + c]
            }
        }),
    decreases t.visible, 0int,
{
    let (gone, window, offset) = lemma_taken(next, minimum_epoch, epoch, channels);
    assert(next.windows.skip(gone) =~= t.windows.skip(gone + 1));
    if take(next, minimum_epoch, epoch, channels).1 is Some {
        assert(next.windows[window] == t.windows[window + 1]);
    }
    (gone + 1, window + 1, offset)
}

proof fn lemma_places(k: int, frames: int, channels: int, c: int)
    requires
        0 <= k < frames,
        0 <= c < channels,
    ensures
        0 <= place(k, channels, c) < frames * channels,
{
    assert(0 <= k * channels && k * channels + channels <= frames * channels) by (nonlinear_arith)
        requires
            0 <= k < frames,
            0 < channels,
    ;
}

/// The steps of so many output frames.
pub open spec fn steps_of(
    schedule: CorrectionSchedule,
    measured: bool,
    counters: CadenceCounters,
    frames: int,
) -> Seq<CadenceStep> {
    Seq::new(
        frames as nat,
        |k: int|
            if measured {
                step_at(schedule, counters, k)
            } else {
                CadenceStep::Follow
            },
    )
}

/// How playing goes on: what it is made of so far, where the last frame was heard, and how
/// many windows are gone.
struct Composing {
    heard: Seq<Heard>,
    standings: Seq<Standing>,
    of: Option<int>,
    gone: int,
    window: int,
    offset: int,
}

/// What is known of a stretch of playing.
spec fn composes(
    p: Playing,
    frames: int,
    schedule: CorrectionSchedule,
    measured: bool,
    minimum_epoch: u64,
    epoch: u64,
    c: Composing,
) -> bool {
    let (end, output) = play(p, frames, schedule, measured, minimum_epoch, epoch);
    let channels = p.last.len() as int;
    &&& composed(
        steps_of(schedule, measured, p.counters, frames),
        c.heard,
        c.standings,
        p.taking.windows,
        p.taking.visible,
        minimum_epoch,
        p.last,
        output,
    )
    &&& c.standings[0] == standing_of(p)
    &&& c.standings[frames] == standing_of(end)
    &&& end.counters == if measured {
        counters_after(schedule, p.counters, frames)
    } else {
        p.counters
    }
    &&& end.last.len() == p.last.len()
    &&& end.taking.offset >= 0
    &&& p.taking.origin is Some ==> end.taking.origin == p.taking.origin
    &&& frames > 0 ==> (c.heard[frames - 1] matches Heard::Frame { number } ==> {
        &&& holds_number(
            p.taking.windows,
            p.taking.visible,
            minimum_epoch,
            number,
            channels,
            c.window,
            c.offset,
        )
        &&& end.taking.position == Some(
            p.taking.windows[c.window].frames@[c.offset].position,
        )
        &&& end.taking.current
            == p.taking.windows[c.window].frames@[c.offset].position.current
    })
    &&& 0 <= c.gone <= p.taking.windows.len()
    &&& end.taking.windows == p.taking.windows.skip(c.gone)
    &&& end.taking.visible == p.taking.visible - c.gone
    &&& match c.of {
        Some(j) => {
            &&& 0 <= j < frames
            &&& c.heard[j] is Frame
            &&& forall|i: int| j < i < frames ==> !(#[trigger] c.heard[i] is Frame)
            &&& forall|x: int|
                0 <= x < channels ==> #[trigger] end.last[x] == output[place(j, channels, x)]
        },
        None => {
            &&& forall|i: int| 0 <= i < frames ==> !(#[trigger] c.heard[i] is Frame)
            &&& end.last == p.last
        },
    }
    &&& (exists|j: int|
        0 <= j < frames && starves(
            steps_of(schedule, measured, p.counters, frames)[j],
            #[trigger] c.heard[j],
            c.standings[j],
            c.standings[j + 1],
        )) ==> take(end.taking, minimum_epoch, epoch, channels).1 is None
}

spec fn standing_of(p: Playing) -> Standing {
    Standing {
        at: p.taking.consumed as int,
        inserted: p.inserted,
        dropped: p.dropped,
        missing: p.missing,
    }
}

/// What was heard stays so when more is.
proof fn lemma_samples_kept(
    heard: Seq<Heard>,
    more: Seq<Heard>,
    k: int,
    windows: Seq<Window>,
    within: int,
    oldest: u64,
    last: Seq<i32>,
    output: Seq<i32>,
    longer: Seq<i32>,
)
    requires
        0 <= k < heard.len(),
        heard.len() <= more.len(),
        forall|i: int| 0 <= i < heard.len() ==> heard[i] == #[trigger] more[i],
        output.len() == heard.len() * last.len(),
        output.len() <= longer.len(),
        forall|i: int| 0 <= i < output.len() ==> output[i] == #[trigger] longer[i],
        samples_heard(heard, k, windows, within, oldest, last, output),
    ensures
        samples_heard(more, k, windows, within, oldest, last, longer),
{
    let channels = last.len() as int;
    let frames = heard.len() as int;
    assert forall|i: int, c: int| 0 <= i < frames && 0 <= c < channels implies longer[
        #[trigger] place(i, channels, c)
    ] == output[place(i, channels, c)] by {
        lemma_places(i, frames, channels, c);
    }
    match heard[k] {
        Heard::Frame { number } => {
            let (window, offset) = choose|window: int, offset: int|
                #[trigger] holds_number(windows, within, oldest, number, channels, window, offset)
                    && (forall|c: int|
                    0 <= c < channels ==> output[#[trigger] place(k, channels, c)]
                        == windows[window].pcm@[offset * channels + c]);
            assert(holds_number(windows, within, oldest, number, channels, window, offset));
        },
        _ => {},
    }
}

/// Playing, frame by frame.
#[verifier::spinoff_prover]
#[verifier::rlimit(60)]
proof fn lemma_composed(
    p: Playing,
    frames: int,
    schedule: CorrectionSchedule,
    measured: bool,
    minimum_epoch: u64,
    epoch: u64,
) -> (c: Composing)
    requires
        frames >= 0,
        p.last.len() > 0,
        p.taking.offset >= 0,
    ensures
        composes(p, frames, schedule, measured, minimum_epoch, epoch, c),
    decreases frames,
{
    let channels = p.last.len() as int;
    if frames <= 0 {
        assert(p.taking.windows.skip(0) =~= p.taking.windows);
        assert(0 * channels == 0);
        Composing {
            heard: Seq::empty(),
            standings: seq![standing_of(p)],
            of: None,
            gone: 0,
            window: 0,
            offset: 0,
        }
    } else {
        let k = frames - 1;
        let c0 = lemma_composed(p, k, schedule, measured, minimum_epoch, epoch);
        let (before, output) = play(p, k, schedule, measured, minimum_epoch, epoch);
        let (after, frame) = play_one(before, schedule, measured, minimum_epoch, epoch);
        let step = cadence_step(schedule, measured, before.counters).0;
        let steps = steps_of(schedule, measured, p.counters, frames);
        assert(steps[k] == step);
        assert(steps_of(schedule, measured, p.counters, k) =~= steps.take(k));
        let (gone1, window1, offset1) = lemma_taken(
            before.taking,
            minimum_epoch,
            epoch,
            channels,
        );
        let (between, first) = take(before.taking, minimum_epoch, epoch, channels);
        let (gone2, window2, offset2) = lemma_taken(between, minimum_epoch, epoch, channels);
        let (third, second) = take(between, minimum_epoch, epoch, channels);
        let windows = p.taking.windows;
        assert(windows.skip(c0.gone).skip(gone1) =~= windows.skip(c0.gone + gone1));
        assert(windows.skip(c0.gone).skip(gone1).skip(gone2) =~= windows.skip(
            c0.gone + gone1 + gone2,
        ));
        let (heard, of, gone, window, offset): (Heard, Option<int>, int, int, int) = match step {
            CadenceStep::Repeat => (Heard::Again { of: c0.of }, c0.of, c0.gone, 0, 0),
            CadenceStep::Follow => if first is Some {
                (
                    Heard::Frame { number: before.taking.consumed as int },
                    Some(k),
                    c0.gone + gone1,
                    c0.gone + window1,
                    offset1,
                )
            } else {
                (Heard::Silence, c0.of, c0.gone + gone1, 0, 0)
            },
            CadenceStep::Skip => if second is Some {
                (
                    Heard::Frame { number: between.consumed as int },
                    Some(k),
                    c0.gone + gone1 + gone2,
                    c0.gone + gone1 + window2,
                    offset2,
                )
            } else {
                (Heard::Again { of: c0.of }, c0.of, c0.gone + gone1 + gone2, 0, 0)
            },
        };
        let c = Composing {
            heard: c0.heard.push(heard),
            standings: c0.standings.push(standing_of(after)),
            of,
            gone,
            window,
            offset,
        };
        let longer = output + frame;
        assert(frame.len() == channels);
        assert(frames * channels == k * channels + channels) by (nonlinear_arith)
            requires
                frames == k + 1,
        ;
        assert(longer.len() == frames * channels);
        assert forall|x: int| 0 <= x < channels implies longer[#[trigger] place(k, channels, x)]
            == frame[x] by {}
        assert forall|i: int, x: int| 0 <= i < k && 0 <= x < channels implies longer[
            #[trigger] place(i, channels, x)
        ] == output[place(i, channels, x)] by {
            lemma_places(i, k, channels, x);
        }
        assert(moves_on(step, heard, c0.standings[k], standing_of(after)));
        assert forall|i: int| 0 <= i < frames implies moves_on(
            steps[i],
            #[trigger] c.heard[i],
            c.standings[i],
            c.standings[i + 1],
        ) by {
            if i < k {
                assert(c.heard[i] == c0.heard[i]);
                assert(steps.take(k)[i] == steps[i]);
            }
        }
        assert forall|i: int| 0 <= i < frames implies #[trigger] samples_heard(
            c.heard,
            i,
            windows,
            p.taking.visible,
            minimum_epoch,
            p.last,
            longer,
        ) by {
            if i < k {
                assert(samples_heard(
                    c0.heard,
                    i,
                    windows,
                    p.taking.visible,
                    minimum_epoch,
                    p.last,
                    output,
                ));
                lemma_samples_kept(
                    c0.heard,
                    c.heard,
                    i,
                    windows,
                    p.taking.visible,
                    minimum_epoch,
                    p.last,
                    output,
                    longer,
                );
            } else {
                match heard {
                    Heard::Frame { number } => {
                        assert(holds_number(
                            windows,
                            p.taking.visible,
                            minimum_epoch,
                            number,
                            channels,
                            window,
                            offset,
                        ));
                    },
                    Heard::Again { of: Some(j) } => {
                        assert(c.heard[j] == c0.heard[j]);
                    },
                    _ => {},
                }
            }
        }
        assert forall|j: int, i: int|
            0 <= j < i < frames && starves(
                steps[j],
                #[trigger] c.heard[j],
                c.standings[j],
                c.standings[j + 1],
            ) implies !(#[trigger] c.heard[i] is Frame) by {
            assert(c.heard[j] == c0.heard[j]);
            assert(steps.take(k)[j] == steps[j]);
            if i < k {
                assert(c.heard[i] == c0.heard[i]);
            }
        }
        if exists|j: int|
            0 <= j < frames && starves(
                steps[j],
                #[trigger] c.heard[j],
                c.standings[j],
                c.standings[j + 1],
            ) {
            let j = choose|j: int|
                0 <= j < frames && starves(
                    steps[j],
                    #[trigger] c.heard[j],
                    c.standings[j],
                    c.standings[j + 1],
                );
            if j < k {
                assert(c.heard[j] == c0.heard[j]);
                assert(steps.take(k)[j] == steps[j]);
            }
        }
        c
    }
}

/// A rendering is made of source frames: every output frame is one whole source frame, in
/// all its channels, or the frame that was heard before it, or silence. The source frames
/// are heard by number, each once and none left out, but for those that the cadence drops;
/// what was dropped, inserted and missing is counted. Once a frame was asked for that is not
/// there, none is heard any more: the device does not wait. The frames that are heard are in
/// windows that the callback may work through, of a version that still counts, and the frame
/// that is heard again first is the last one before the rendering, or silence after a clear.
pub proof fn a_rendering_is_made_of_source_frames(
    before: ReaderState,
    after: ReaderState,
    pipe_before: DeviceSide,
    pipe_after: DeviceSide,
    visible_before: usize,
    visible_after: usize,
    view: GateView,
    started: Reached,
    reached: Reached,
    measured: bool,
    wanted: Option<CorrectionSchedule>,
    output: Seq<i32>,
    rendered: Rendered,
) -> (made: (Seq<Heard>, Seq<Standing>, CadenceCounters))
    requires
        before.channels() > 0,
        output.len() as int % before.channels() == 0,
        renders(
            before,
            after,
            pipe_before,
            pipe_after,
            visible_before,
            visible_after,
            view,
            started,
            reached,
            measured,
            wanted,
            output,
            rendered,
        ),
    ensures
        ({
            let (heard, standings, counters) = made;
            let frames = output.len() as int / before.channels();
            &&& composed(
                steps_of(after.schedule, measured, counters, frames),
                heard,
                standings,
                pipe_before.coming(),
                visible_before as int,
                if view.says().reanchored {
                    view.says().epoch
                } else {
                    before.minimum_epoch
                },
                if view.says().revoked {
                    Seq::new(before.last.len(), |i: int| 0i32)
                } else {
                    before.last
                },
                output,
            )
            &&& standings[0] == (Standing {
                at: started.consumed as int,
                inserted: 0,
                dropped: 0,
                missing: 0,
            })
            &&& standings[frames] == (Standing {
                at: reached.consumed as int,
                inserted: rendered.inserted as int,
                dropped: rendered.dropped as int,
                missing: rendered.missing as int,
            })
            &&& rendered.consumed == reached.consumed - started.consumed
            &&& after.counters == if measured {
                counters_after(after.schedule, counters, frames)
            } else {
                counters
            }
            &&& frames > 0 ==> (heard[frames - 1] matches Heard::Frame { number } ==> exists|
                window: int,
                offset: int,
            |
                {
                    let stand = pipe_before.coming()[window].frames@[offset].position;
                    &&& #[trigger] holds_number(
                        pipe_before.coming(),
                        visible_before as int,
                        0,
                        number,
                        before.channels(),
                        window,
                        offset,
                    )
                    &&& after.position == Some(stand)
                    &&& reached.current == stand.current
                })
        }),
{
    let slack = given_back(pipe_before, pipe_after);
    assert(could_return(pipe_before, pipe_after, slack));
    let ready = begun(before, view, measured, wanted);
    let p = playing(
        ready,
        pipe_before,
        visible_before,
        started.current,
        started.consumed,
        slack,
        FrameCounts { inserted: 0, dropped: 0, missing: 0 },
    );
    let frames = output.len() as int / before.channels();
    lemma_whole_frames(output.len() as int, before.channels());
    assert(p.taking.windows == pipe_before.coming());
    let c = lemma_composed(
        p,
        frames,
        ready.schedule,
        measured,
        ready.minimum_epoch,
        view.says().epoch,
    );
    if frames > 0 {
        match c.heard[frames - 1] {
            Heard::Frame { number } => {
                assert(holds_number(
                    pipe_before.coming(),
                    visible_before as int,
                    0,
                    number,
                    before.channels(),
                    c.window,
                    c.offset,
                ));
            },
            _ => {},
        }
    }
    (c.heard, c.standings, ready.counters)
}

/// How a rendering begins. A clear or a new timeline begins a new timeline, at the version of
/// that moment, with no correction and no counts; a new timeline also puts every older window
/// out of use. Without a plan nothing is corrected. A plan is taken over under a measured
/// timestamp only, and then with its own counts; one that is followed already goes on as it
/// is. Where the device plays on, the rendering begins at the source time that it has reached.
pub proof fn a_rendering_begins_by_the_notices_and_the_plan(
    before: ReaderState,
    view: GateView,
    measured: bool,
    wanted: Option<CorrectionSchedule>,
)
    ensures
        ({
            let ready = begun(before, view, measured, wanted);
            let notice = view.says().revoked || view.says().reanchored;
            let kept = if notice {
                steady()
            } else {
                before.schedule
            };
            let zero = CadenceCounters { insert: 0, drop: 0 };
            &&& ready.last.len() == before.last.len()
            &&& view.says().revoked ==> forall|i: int|
                0 <= i < ready.last.len() ==> ready.last[i] == 0
            &&& !view.says().revoked ==> ready.last == before.last
            &&& ready.timeline == if notice {
                view.says().epoch
            } else {
                before.timeline
            }
            &&& ready.minimum_epoch == if view.says().reanchored {
                view.says().epoch
            } else {
                before.minimum_epoch
            }
            &&& notice ==> ready.position is None && ready.origin is None
            &&& !notice ==> ready.position == before.position
            &&& !notice ==> (before.position matches Some(p) ==> ready.origin == Some(p.cursor_us))
            &&& !notice && before.position is None ==> ready.origin is None
            &&& wanted is None ==> ready.schedule == steady() && ready.counters == zero
            &&& wanted matches Some(plan) ==> if measured && plan != kept {
                ready.schedule == plan && ready.counters.insert == plan.insert_every_n_frames
                    && ready.counters.drop == plan.drop_every_n_frames
            } else {
                ready.schedule == kept && ready.counters == if notice {
                    zero
                } else {
                    before.counters
                }
            }
        }),
{
}

/// A rendering keeps what it began with: its timeline, the versions that count, and its plan.
/// Where the device plays on, it reports the source time that it had reached.
pub proof fn a_rendering_keeps_its_plan_and_reports_where_it_began(
    before: ReaderState,
    after: ReaderState,
    pipe_before: DeviceSide,
    pipe_after: DeviceSide,
    visible_before: usize,
    visible_after: usize,
    view: GateView,
    started: Reached,
    reached: Reached,
    measured: bool,
    wanted: Option<CorrectionSchedule>,
    output: Seq<i32>,
    rendered: Rendered,
)
    requires
        before.channels() > 0,
        output.len() as int % before.channels() == 0,
        renders(
            before,
            after,
            pipe_before,
            pipe_after,
            visible_before,
            visible_after,
            view,
            started,
            reached,
            measured,
            wanted,
            output,
            rendered,
        ),
    ensures
        ({
            let notice = view.says().revoked || view.says().reanchored;
            let kept = if notice {
                steady()
            } else {
                before.schedule
            };
            &&& after.timeline == if notice {
                view.says().epoch
            } else {
                before.timeline
            }
            &&& after.minimum_epoch == if view.says().reanchored {
                view.says().epoch
            } else {
                before.minimum_epoch
            }
            &&& wanted is None ==> after.schedule == steady()
            &&& wanted matches Some(plan) ==> after.schedule == if measured {
                plan
            } else {
                kept
            }
            &&& !notice ==> (before.position matches Some(p) ==> rendered.source_cursor_us == Some(
                p.cursor_us,
            ))
            &&& after.last.len() == before.last.len()
        }),
{
    let slack = given_back(pipe_before, pipe_after);
    assert(could_return(pipe_before, pipe_after, slack));
    let ready = begun(before, view, measured, wanted);
    let p = playing(
        ready,
        pipe_before,
        visible_before,
        started.current,
        started.consumed,
        slack,
        FrameCounts { inserted: 0, dropped: 0, missing: 0 },
    );
    lemma_whole_frames(output.len() as int, before.channels());
    let c = lemma_composed(
        p,
        output.len() as int / before.channels(),
        ready.schedule,
        measured,
        ready.minimum_epoch,
        view.says().epoch,
    );
}

} // verus!
