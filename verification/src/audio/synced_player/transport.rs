//! Ownership of fixed windows, handed between the worker and the device.
//!
//! A number of free windows bounds what is ready, being played and on its way
//! back, all together; the worker has one more to build in. The device only
//! moves windows: it never makes or frees one.
use super::preparation::{array_bytes, layout_bytes, Frame, Window};
use super::ring::{ring, Inlet, Outlet};
use super::shared::Plain;
use rtrb::RingBuffer;
use vstd::prelude::*;

verus! {

/// The dimensions of everything that a pipe allocates, in elements and in bytes.
/// Bytes are those of the requested layouts.
#[derive(Clone, Copy, Debug, PartialEq, Eq, Structural)]
pub struct Allocation {
    pub windows: usize,
    pub frames_per_window: usize,
    pub samples_per_window: usize,
    pub frame_capacity_total: usize,
    pub sample_capacity_total: usize,
    pub ready_capacity: usize,
    pub retired_capacity: usize,
    pub free_capacity: usize,
    pub window_payload_bytes: usize,
    pub ready_slot_bytes: usize,
    pub retired_slot_bytes: usize,
    pub free_slot_bytes: usize,
    pub endpoint_bytes: usize,
    pub ring_control_bytes: usize,
    pub requested_bytes_without_arc_headers: usize,
}

/// `Vec::capacity`: what the vector can hold without allocating again, which is
/// at least what it holds. How much more is the allocator's choice.
#[verifier::external_body]
pub(crate) fn reserved<T>(vector: &Vec<T>) -> (capacity: usize)
    ensures
        capacity >= vector@.len(),
{
    vector.capacity()
}

/// The worker's end.
pub struct PrepareSide {
    builder: Window,
    free: Vec<Window>,
    ready: Inlet<Window>,
    retired: Outlet<Window>,
    limit: usize,
    allocation: Allocation,
}

/// The device's end of a pipe. The item being played stays at the head of the
/// ready ring until it is retired.
#[verifier::reject_recursive_types(T)]
pub struct DeviceLane<T: Plain> {
    ready: Outlet<T>,
    retired: Inlet<T>,
    offset: usize,
    pending_return: Option<T>,
}

/// The device's end of a pipe of windows.
pub type DeviceSide = DeviceLane<Window>;

/// The bytes that a pipe of these dimensions asks for, as long as they can be
/// told.
pub open spec fn requested_bytes(limit: int, frames: int, channels: int) -> int {
    let slot = vstd::layout::size_of::<Window>() as int;
    (limit + 1) * (frames * vstd::layout::size_of::<Frame>() + (frames * channels)
        * vstd::layout::size_of::<i32>()) + 3 * (limit * slot) + vstd::layout::size_of::<
        PrepareSide,
    >() + vstd::layout::size_of::<DeviceSide>() + 2 * vstd::layout::size_of::<RingBuffer<Window>>()
}

/// Whether a pipe of these dimensions can be asked for at all.
pub open spec fn representable(limit: usize, frames: usize, channels: usize) -> bool {
    &&& limit > 0 && frames > 0 && channels > 0
    &&& limit * 2 <= usize::MAX
    &&& frames * channels <= usize::MAX
    &&& array_bytes::<Frame>(frames) is Some
    &&& array_bytes::<i32>((frames * channels) as usize) is Some
    &&& array_bytes::<Window>(limit) is Some
    &&& requested_bytes(limit as int, frames as int, channels as int) <= usize::MAX
}

/// The sum, if it can be told.
fn sum(a: Option<usize>, b: Option<usize>) -> (total: Option<usize>)
    ensures
        match total {
            Some(t) => a is Some && b is Some && t == a->0 + b->0,
            None => a is None || b is None || a->0 + b->0 > usize::MAX,
        },
{
    match (a, b) {
        (Some(a), Some(b)) => a.checked_add(b),
        _ => None,
    }
}

/// The first check of a configuration, before anything is allocated: the bytes
/// of the payload of all windows, and those of one row of slots.
fn preflight(limit: usize, frames: usize, channels: usize) -> (payload: Option<usize>)
    ensures
        payload is Some <==> representable(limit, frames, channels),
        payload matches Some(p) ==> p == (limit + 1) * (frames * vstd::layout::size_of::<Frame>()
            + (frames * channels) * vstd::layout::size_of::<i32>()),
{
    if limit == 0 || frames == 0 || channels == 0 {
        return None;
    }
    limit.checked_mul(2)?;
    let windows: usize = limit.checked_add(1)?;
    let samples: usize = frames.checked_mul(channels)?;
    let frame_bytes: usize = layout_bytes::<Frame>(frames)?;
    let sample_bytes: usize = layout_bytes::<i32>(samples)?;
    let slots: usize = layout_bytes::<Window>(limit)?;
    let ghost payload = (frame_bytes + sample_bytes) * windows;
    let ghost endpoints = vstd::layout::size_of::<PrepareSide>() + vstd::layout::size_of::<
        DeviceSide,
    >();
    let ghost control = 2 * vstd::layout::size_of::<RingBuffer<Window>>();
    assert(requested_bytes(limit as int, frames as int, channels as int) == payload + 3 * slots
        + endpoints + control) by (nonlinear_arith)
        requires
            requested_bytes(limit as int, frames as int, channels as int) == (limit + 1) * (frames
                * vstd::layout::size_of::<Frame>() + (frames * channels) * vstd::layout::size_of::<
                i32,
            >()) + 3 * (limit * vstd::layout::size_of::<Window>()) + vstd::layout::size_of::<
                PrepareSide,
            >() + vstd::layout::size_of::<DeviceSide>() + 2 * vstd::layout::size_of::<
                RingBuffer<Window>,
            >(),
            frame_bytes == frames * vstd::layout::size_of::<Frame>(),
            sample_bytes == (frames * channels) * vstd::layout::size_of::<i32>(),
            slots == limit * vstd::layout::size_of::<Window>(),
            windows == limit + 1,
            payload == (frame_bytes + sample_bytes) * windows,
            endpoints == vstd::layout::size_of::<PrepareSide>() + vstd::layout::size_of::<
                DeviceSide,
            >(),
            control == 2 * vstd::layout::size_of::<RingBuffer<Window>>(),
    ;
    assert(payload >= frame_bytes + sample_bytes) by (nonlinear_arith)
        requires
            payload == (frame_bytes + sample_bytes) * windows,
            windows >= 1,
            frame_bytes + sample_bytes >= 0,
    ;
    let one: usize = frame_bytes.checked_add(sample_bytes)?;
    let all: usize = one.checked_mul(windows)?;
    let total: Option<usize> = sum(
        sum(sum(Some(all), slots.checked_mul(3)), endpoint_bytes()),
        control_bytes(),
    );
    total?;
    Some(all)
}

fn endpoint_bytes() -> (bytes: Option<usize>)
    ensures
        match bytes {
            Some(b) => b == vstd::layout::size_of::<PrepareSide>() + vstd::layout::size_of::<
                DeviceSide,
            >(),
            None => vstd::layout::size_of::<PrepareSide>() + vstd::layout::size_of::<DeviceSide>()
                > usize::MAX,
        },
{
    core::mem::size_of::<PrepareSide>().checked_add(core::mem::size_of::<DeviceSide>())
}

fn control_bytes() -> (bytes: Option<usize>)
    ensures
        match bytes {
            Some(b) => b == 2 * vstd::layout::size_of::<RingBuffer<Window>>(),
            None => 2 * vstd::layout::size_of::<RingBuffer<Window>>() > usize::MAX,
        },
{
    core::mem::size_of::<RingBuffer<Window>>().checked_mul(2)
}

impl Allocation {
    /// The account adds up.
    pub open spec fn adds_up(self, limit: int, frames: int, channels: int) -> bool {
        &&& self.windows == limit + 1
        &&& self.frames_per_window == frames
        &&& self.samples_per_window == frames * channels
        &&& self.frame_capacity_total >= (limit + 1) * frames
        &&& self.sample_capacity_total >= (limit + 1) * (frames * channels)
        &&& self.ready_capacity == limit
        &&& self.retired_capacity == limit
        &&& array_bytes::<Window>(self.ready_capacity) == Some(self.ready_slot_bytes)
        &&& array_bytes::<Window>(self.retired_capacity) == Some(self.retired_slot_bytes)
        &&& array_bytes::<Window>(self.free_capacity) == Some(self.free_slot_bytes)
        &&& self.endpoint_bytes == vstd::layout::size_of::<PrepareSide>() + vstd::layout::size_of::<
            DeviceSide,
        >()
        &&& self.ring_control_bytes == 2 * vstd::layout::size_of::<RingBuffer<Window>>()
        &&& self.requested_bytes_without_arc_headers == self.window_payload_bytes
            + self.free_slot_bytes + self.ready_slot_bytes + self.retired_slot_bytes
            + self.endpoint_bytes + self.ring_control_bytes
    }
}

impl PrepareSide {
    /// The window being built.
    pub closed spec fn building(&self) -> Window {
        self.builder
    }

    /// The free windows.
    pub closed spec fn credits(&self) -> Seq<Window> {
        self.free@
    }

    /// The end that publishes.
    pub closed spec fn outgoing(&self) -> Inlet<Window> {
        self.ready
    }

    /// The end that takes windows back.
    pub closed spec fn incoming(&self) -> Outlet<Window> {
        self.retired
    }

    pub closed spec fn bound(&self) -> usize {
        self.limit
    }

    pub closed spec fn account(&self) -> Allocation {
        self.allocation
    }

    /// Everything but the window being built stays.
    pub open spec fn same_but_builder(&self, before: PrepareSide) -> bool {
        &&& self.credits() == before.credits()
        &&& self.outgoing() == before.outgoing()
        &&& self.incoming() == before.incoming()
        &&& self.bound() == before.bound()
        &&& self.account() == before.account()
    }
}

impl<T: Plain> DeviceLane<T> {
    /// The end that items arrive at.
    pub closed spec fn incoming(&self) -> Outlet<T> {
        self.ready
    }

    /// The end that gives items back.
    pub closed spec fn outgoing(&self) -> Inlet<T> {
        self.retired
    }

    /// How far the device is into the item at the head.
    pub closed spec fn at(&self) -> usize {
        self.offset
    }

    /// An item that could not be given back yet.
    pub closed spec fn held(&self) -> Option<T> {
        self.pending_return
    }

    /// The items to play, whether they have arrived or not.
    pub open spec fn coming(&self) -> Seq<T> {
        self.incoming().coming()
    }

    /// How many of them are known to have arrived.
    pub open spec fn arrived(&self) -> nat {
        self.incoming().ready()
    }

    /// How many items are known to fit on the way back.
    pub open spec fn returnable(&self) -> nat {
        self.outgoing().room()
    }
}

/// A fresh pipe: all windows free but the one to build in, nothing in flight, and
/// each end's outgoing ring the other end's incoming one.
pub open spec fn fresh(
    prepare: PrepareSide,
    device: DeviceSide,
    limit: usize,
    frames: usize,
    channels: usize,
) -> bool {
    &&& prepare.bound() == limit
    &&& prepare.building().sized(frames as int, channels as int)
    &&& prepare.building().valid == 0
    &&& prepare.building().skipped_tail is None
    &&& prepare.credits().len() == limit
    &&& forall|i: int|
        0 <= i < limit ==> (#[trigger] prepare.credits()[i]).sized(frames as int, channels as int)
            && prepare.credits()[i].valid == 0 && prepare.credits()[i].skipped_tail is None
    &&& prepare.outgoing().stream() == device.incoming().stream()
    &&& device.outgoing().stream() == prepare.incoming().stream()
    &&& prepare.outgoing().sent() == 0 && device.incoming().taken() == 0
    &&& device.outgoing().sent() == 0 && prepare.incoming().taken() == 0
    &&& prepare.outgoing().room() == limit && device.outgoing().room() == limit
    &&& prepare.outgoing().limit() == limit && device.outgoing().limit() == limit
    &&& device.incoming().ready() == 0 && prepare.incoming().ready() == 0
    &&& device.incoming().placed() && prepare.incoming().placed()
    &&& device.at() == 0
    &&& device.held() is None
    &&& prepare.account().adds_up(limit as int, frames as int, channels as int)
}

/// The account of a pipe before it is made, as if every allocation were exactly as
/// large as it is asked for.
pub open spec fn plan_of(limit: usize, frames: usize, channels: usize) -> Option<Allocation> {
    if representable(limit, frames, channels) {
        account_of(
            limit,
            frames,
            channels,
            limit,
            Some(
                (
                    ((limit + 1) * frames) as usize,
                    ((limit + 1) * (frames * channels)) as usize,
                    ((limit + 1) * (frames * vstd::layout::size_of::<Frame>() + (frames * channels)
                        * vstd::layout::size_of::<i32>())) as usize,
                ),
            ),
        )
    } else {
        None
    }
}

pub fn planned(limit: usize, frames: usize, channels: usize) -> (allocation: Option<Allocation>)
    ensures
        allocation is Some <==> representable(limit, frames, channels),
        allocation == plan_of(limit, frames, channels),
        allocation matches Some(a) ==> a.adds_up(limit as int, frames as int, channels as int)
            && a.free_capacity == limit && a.frame_capacity_total == (limit + 1) * frames
            && a.sample_capacity_total == (limit + 1) * (frames * channels),
{
    let window_payload_bytes: usize = preflight(limit, frames, channels)?;
    let windows: usize = limit.checked_add(1)?;
    let samples: usize = frames.checked_mul(channels)?;
    let endpoint_bytes: usize = endpoint_bytes()?;
    let ring_control_bytes: usize = control_bytes()?;
    let slot_bytes: usize = layout_bytes::<Window>(limit)?;
    proof {
        broadcast use vstd::layout::layout_of_primitives;

        let per_frame = vstd::layout::size_of::<Frame>() as int;
        assert(slot_bytes == limit * vstd::layout::size_of::<Window>());
        assert(windows * samples <= window_payload_bytes && windows * frames <= windows * samples)
            by (nonlinear_arith)
            requires
                windows == limit + 1,
                samples == frames * channels,
                channels > 0,
                frames > 0,
                per_frame >= 0,
                window_payload_bytes == (limit + 1) * (frames * per_frame + (frames * channels)
                    * 4),
        ;
    }
    let requested: usize = window_payload_bytes.checked_add(slot_bytes)?.checked_add(
        slot_bytes,
    )?.checked_add(slot_bytes)?.checked_add(endpoint_bytes)?.checked_add(ring_control_bytes)?;
    Some(
        Allocation {
            windows,
            frames_per_window: frames,
            samples_per_window: samples,
            frame_capacity_total: windows.checked_mul(frames)?,
            sample_capacity_total: windows.checked_mul(samples)?,
            ready_capacity: limit,
            retired_capacity: limit,
            free_capacity: limit,
            window_payload_bytes,
            ready_slot_bytes: slot_bytes,
            retired_slot_bytes: slot_bytes,
            free_slot_bytes: slot_bytes,
            endpoint_bytes,
            ring_control_bytes,
            requested_bytes_without_arc_headers: requested,
        },
    )
}

/// The frames, samples and bytes reserved, with one more window, as long as they can be
/// told.
pub open spec fn tallied(totals: (usize, usize, usize), frames: usize, samples: usize) -> Option<
    (usize, usize, usize),
> {
    match (array_bytes::<Frame>(frames), array_bytes::<i32>(samples)) {
        (Some(frame_bytes), Some(sample_bytes)) => if totals.0 + frames <= usize::MAX && totals.1
            + samples <= usize::MAX && totals.2 + frame_bytes + sample_bytes <= usize::MAX {
            Some(
                (
                    (totals.0 + frames) as usize,
                    (totals.1 + samples) as usize,
                    (totals.2 + frame_bytes + sample_bytes) as usize,
                ),
            )
        } else {
            None
        },
        _ => None,
    }
}

/// What the first windows have reserved, each in frames and samples.
pub open spec fn tally(reserved: Seq<(usize, usize)>, count: int) -> Option<(usize, usize, usize)>
    decreases count,
{
    if count <= 0 {
        Some((0, 0, 0))
    } else {
        match tally(reserved, count - 1) {
            Some(totals) => tallied(totals, reserved[count - 1].0, reserved[count - 1].1),
            None => None,
        }
    }
}

/// One more window in the running account of what was reserved.
fn reserve_window(totals: (usize, usize, usize), frames: usize, samples: usize) -> (next: Option<
    (usize, usize, usize),
>)
    ensures
        next == tallied(totals, frames, samples),
{
    let frame_bytes: usize = layout_bytes::<Frame>(frames)?;
    let sample_bytes: usize = layout_bytes::<i32>(samples)?;
    let frame_total: usize = totals.0.checked_add(frames)?;
    let sample_total: usize = totals.1.checked_add(samples)?;
    let bytes: usize = totals.2.checked_add(frame_bytes)?.checked_add(sample_bytes)?;
    Some((frame_total, sample_total, bytes))
}

/// The account of a pipe from what its windows and its free list have reserved, as long
/// as it can be told.
pub open spec fn account_of(
    limit: usize,
    frames: usize,
    channels: usize,
    free_capacity: usize,
    totals: Option<(usize, usize, usize)>,
) -> Option<Allocation> {
    let slot = (limit * vstd::layout::size_of::<Window>()) as int;
    let endpoints = vstd::layout::size_of::<PrepareSide>() + vstd::layout::size_of::<DeviceSide>();
    let control = 2 * vstd::layout::size_of::<RingBuffer<Window>>();
    match (totals, array_bytes::<Window>(free_capacity)) {
        (Some(t), Some(free)) => if t.2 + free + 2 * slot + endpoints + control <= usize::MAX {
            Some(
                Allocation {
                    windows: (limit + 1) as usize,
                    frames_per_window: frames,
                    samples_per_window: (frames * channels) as usize,
                    frame_capacity_total: t.0,
                    sample_capacity_total: t.1,
                    ready_capacity: limit,
                    retired_capacity: limit,
                    free_capacity,
                    window_payload_bytes: t.2,
                    ready_slot_bytes: slot as usize,
                    retired_slot_bytes: slot as usize,
                    free_slot_bytes: free,
                    endpoint_bytes: endpoints as usize,
                    ring_control_bytes: control as usize,
                    requested_bytes_without_arc_headers: (t.2 + free + 2 * slot + endpoints
                        + control) as usize,
                },
            )
        } else {
            None
        },
        _ => None,
    }
}

/// Draw up the account of a pipe from what the allocator has reserved.
pub fn account(
    limit: usize,
    frames: usize,
    channels: usize,
    free_capacity: usize,
    totals: Option<(usize, usize, usize)>,
) -> (allocation: Option<Allocation>)
    requires
        representable(limit, frames, channels),
    ensures
        allocation == account_of(limit, frames, channels, free_capacity, totals),
{
    let totals: (usize, usize, usize) = totals?;
    let free_slot_bytes: usize = layout_bytes::<Window>(free_capacity)?;
    let slot_bytes: usize = layout_bytes::<Window>(limit)?;
    let endpoint_bytes: usize = endpoint_bytes()?;
    let ring_control_bytes: usize = control_bytes()?;
    let requested: usize = totals.2.checked_add(free_slot_bytes)?.checked_add(
        slot_bytes,
    )?.checked_add(slot_bytes)?.checked_add(endpoint_bytes)?.checked_add(ring_control_bytes)?;
    Some(
        Allocation {
            windows: limit.checked_add(1)?,
            frames_per_window: frames,
            samples_per_window: frames.checked_mul(channels)?,
            frame_capacity_total: totals.0,
            sample_capacity_total: totals.1,
            ready_capacity: limit,
            retired_capacity: limit,
            free_capacity,
            window_payload_bytes: totals.2,
            ready_slot_bytes: slot_bytes,
            retired_slot_bytes: slot_bytes,
            free_slot_bytes,
            endpoint_bytes,
            ring_control_bytes,
            requested_bytes_without_arc_headers: requested,
        },
    )
}

/// This is the room that a window was asked for: of its frames, and of its samples.
pub closed spec fn has_room(window: Window, room: (usize, usize)) -> bool {
    &&& call_ensures(reserved::<Frame>, (&window.frames,), room.0)
    &&& call_ensures(reserved::<i32>, (&window.pcm,), room.1)
}

/// This is the room that a list of free windows was asked for.
pub closed spec fn has_slots(free: Vec<Window>, slots: usize) -> bool {
    call_ensures(reserved::<Window>, (&free,), slots)
}

/// What an allocator has reserved for the windows of a pipe: what each of them was asked
/// for, which is at least what it holds.
pub open spec fn reserves(
    reserved: Seq<(usize, usize)>,
    limit: int,
    frames: int,
    channels: int,
) -> bool {
    &&& reserved.len() == limit + 1
    &&& forall|i: int|
        0 <= i < reserved.len() ==> (#[trigger] reserved[i]).0 >= frames && reserved[i].1 >= frames
            * channels && exists|window: Window| #[trigger]
            has_room(window, reserved[i]) && window.sized(frames, channels)
}

/// How making a pipe ends once the allocator has reserved what it has: with both ends,
/// as long as the account can be told.
pub open spec fn piped(
    limit: usize,
    frames: usize,
    channels: usize,
    free_capacity: usize,
    reserved: Seq<(usize, usize)>,
    ends: Option<(PrepareSide, DeviceSide)>,
) -> bool {
    let allocation = account_of(
        limit,
        frames,
        channels,
        free_capacity,
        tally(reserved, limit + 1),
    );
    &&& exists|free: Vec<Window>| #[trigger] has_slots(free, free_capacity) && free@.len() == 0
    &&& reserves(reserved, limit as int, frames as int, channels as int)
    &&& ends is Some <==> allocation is Some
    &&& ends matches Some(e) ==> Some(e.0.account()) == allocation
}

/// Windows only add to what is reserved.
proof fn lemma_tally(
    reserved: Seq<(usize, usize)>,
    limit: int,
    frames: int,
    channels: int,
    count: int,
)
    requires
        reserves(reserved, limit, frames, channels),
        0 <= count <= limit + 1,
        frames >= 0,
        channels >= 0,
    ensures
        tally(reserved, count) matches Some(t) ==> t.0 >= count * frames && t.1 >= count * (frames
            * channels),
    decreases count,
{
    if count > 0 {
        lemma_tally(reserved, limit, frames, channels, count - 1);
        assert(count * frames == (count - 1) * frames + frames) by (nonlinear_arith);
        assert(count * (frames * channels) == (count - 1) * (frames * channels) + frames * channels)
            by (nonlinear_arith);
    }
}

/// A tally depends only on the windows that it counts.
proof fn lemma_tally_of_prefix(a: Seq<(usize, usize)>, b: Seq<(usize, usize)>, count: int)
    requires
        0 <= count <= a.len(),
        count <= b.len(),
        forall|i: int| 0 <= i < count ==> a[i] == b[i],
    ensures
        tally(a, count) == tally(b, count),
    decreases count,
{
    if count > 0 {
        lemma_tally_of_prefix(a, b, count - 1);
    }
}

/// Make a pipe of `limit` windows in flight. Dimensions that cannot be told are
/// refused before anything is allocated. An allocator that reserves so much more
/// than it is asked for that the final account cannot be told is refused too.
pub fn pipe(limit: usize, frames: usize, channels: usize) -> (ends: Option<
    (PrepareSide, DeviceSide),
>)
    ensures
        !representable(limit, frames, channels) ==> ends is None,
        representable(limit, frames, channels) ==> exists|
            free_capacity: usize,
            reserved: Seq<(usize, usize)>,
        | #[trigger]
            piped(limit, frames, channels, free_capacity, reserved, ends),
        ends matches Some(e) ==> fresh(e.0, e.1, limit, frames, channels),
{
    preflight(limit, frames, channels)?;
    let mut free: Vec<Window> = Vec::with_capacity(limit);
    let free_capacity: usize = reserved(&free);
    let ghost none_free = free;
    assert(has_slots(none_free, free_capacity));
    let (ready_in, ready_out) = ring::<Window>(limit);
    let (retired_in, retired_out) = ring::<Window>(limit);
    let builder = Window::new(frames, channels)?;
    let builder_frames: usize = reserved(&builder.frames);
    let builder_samples: usize = reserved(&builder.pcm);
    let ghost mut all: Seq<(usize, usize)> = seq![(builder_frames, builder_samples)];
    let mut totals: Option<(usize, usize, usize)> = reserve_window(
        (0, 0, 0),
        builder_frames,
        builder_samples,
    );
    proof {
        reveal_with_fuel(tally, 2);
        assert(tally(all, 1) == totals);
        assert(has_room(builder, all[0]));
    }
    let mut made: usize = 0;
    while made < limit
        invariant
            made <= limit,
            representable(limit, frames, channels),
            free@.len() == made,
            forall|i: int|
                0 <= i < made ==> (#[trigger] free@[i]).sized(frames as int, channels as int)
                    && free@[i].valid == 0 && free@[i].skipped_tail is None,
            has_slots(none_free, free_capacity),
            none_free@.len() == 0,
            reserves(all, made as int, frames as int, channels as int),
            totals == tally(all, made + 1),
        decreases limit - made,
    {
        let window = Window::new(frames, channels)?;
        let window_frames: usize = reserved(&window.frames);
        let window_samples: usize = reserved(&window.pcm);
        let ghost before = all;
        totals = match totals {
            Some(totals) => reserve_window(totals, window_frames, window_samples),
            None => None,
        };
        proof {
            all = all.push((window_frames, window_samples));
            assert(has_room(window, all[made + 1]) && window.sized(frames as int, channels as int));
            assert forall|i: int| 0 <= i < all.len() implies (#[trigger] all[i]).0 >= frames
                && all[i].1 >= frames * channels && exists|w: Window| #[trigger]
                has_room(w, all[i]) && w.sized(frames as int, channels as int) by {
                if i < before.len() {
                    assert(all[i] == before[i]);
                }
            }
            lemma_tally_of_prefix(before, all, made + 1);
        }
        free.push(window);
        made += 1;
    }
    let result = match account(limit, frames, channels, free_capacity, totals) {
        Some(allocation) => {
            proof {
                lemma_tally(all, limit as int, frames as int, channels as int, limit + 1);
            }
            let prepare = PrepareSide {
                builder,
                free,
                ready: ready_in,
                retired: retired_out,
                limit,
                allocation,
            };
            Some((prepare, DeviceLane::over(ready_out, retired_in)))
        },
        None => None,
    };
    assert(piped(limit, frames, channels, free_capacity, all, result));
    result
}

impl PrepareSide {
    /// Free windows that this end holds. The device can only add to them.
    pub fn available_credits(&self) -> (credits: usize)
        ensures
            credits == self.credits().len(),
    {
        self.free.len()
    }

    pub fn allocation(&self) -> (allocation: Allocation)
        ensures
            allocation == self.account(),
    {
        self.allocation
    }

    /// The one unpublished window, to be refilled in place.
    pub fn builder_mut(&mut self) -> (builder: &mut Window)
        ensures
            *builder == old(self).building(),
            final(self).building() == *final(builder),
            final(self).same_but_builder(*old(self)),
    {
        &mut self.builder
    }

    /// Hand the built window to the device, and build in a free one. Without a
    /// free window, or without room, everything stays as it is.
    pub fn publish(&mut self) -> (published: bool)
        ensures
            old(self).credits().len() == 0 ==> !published,
            old(self).credits().len() > 0 && old(self).outgoing().room() > 0 ==> published,
            publishes(*old(self), *final(self), published),
    {
        let mut spare = match self.free.pop() {
            Some(spare) => spare,
            None => {
                return false;
            },
        };
        core::mem::swap(&mut self.builder, &mut spare);
        match self.ready.push(spare) {
            Ok(_) => {
                self.builder.valid = 0;
                self.builder.skipped_tail = None;
                true
            },
            Err(prepared) => {
                let mut back = prepared;
                core::mem::swap(&mut self.builder, &mut back);
                self.free.push(back);
                assert(self.free@ =~= old(self).free@);
                false
            },
        }
    }

    /// Take back what the device has returned, at most as many windows as the
    /// pipe has.
    pub fn reclaim(&mut self) -> (reclaimed: usize)
        ensures
            reclaimed <= old(self).bound(),
            reclaimed < old(self).bound() ==> reclaimed >= old(self).incoming().ready(),
            reclaims(*old(self), *final(self), reclaimed),
    {
        let ghost coming = self.retired.coming();
        let mut reclaimed: usize = 0;
        assert(coming.take(0) =~= Seq::<Window>::empty());
        assert(coming.skip(0) =~= coming);
        while reclaimed < self.limit
            invariant_except_break
                self.retired.ready() + reclaimed >= old(self).retired.ready(),
            invariant
                reclaimed <= self.limit,
                self.limit == old(self).limit,
                coming == old(self).retired.coming(),
                reclaimed <= coming.len(),
                self.retired.coming() == coming.skip(reclaimed as int),
                self.retired.stream() == old(self).retired.stream(),
                self.retired.taken() == old(self).retired.taken() + reclaimed,
                self.free@ == old(self).free@ + coming.take(reclaimed as int),
                self.builder == old(self).builder,
                self.ready == old(self).ready,
                self.allocation == old(self).allocation,
            ensures
                reclaimed < self.limit ==> reclaimed >= old(self).retired.ready(),
            decreases self.limit - reclaimed,
        {
            let ghost now = self.retired.coming();
            match self.retired.pop() {
                Some(window) => {
                    assert(window == coming[reclaimed as int]);
                    self.free.push(window);
                    assert(self.retired.coming() =~= now.skip(1));
                    assert(now.skip(1) =~= coming.skip(reclaimed + 1));
                    reclaimed += 1;
                    assert(self.free@ =~= old(self).free@ + coming.take(reclaimed as int));
                },
                None => {
                    break;
                },
            }
        }
        reclaimed
    }
}

impl<T: Plain> DeviceLane<T> {
    /// Both ends of two rings, with nothing in hand.
    pub(crate) fn over(ready: Outlet<T>, retired: Inlet<T>) -> (lane: DeviceLane<T>)
        ensures
            lane.incoming() == ready,
            lane.outgoing() == retired,
            lane.at() == 0,
            lane.held() is None,
    {
        DeviceLane { ready, retired, offset: 0, pending_return: None }
    }

    /// How many items this callback may work through. Asked once on entry:
    /// items that arrive later wait for the next callback.
    pub fn visible(&mut self) -> (visible: usize)
        ensures
            old(self).held() is Some ==> visible == 0 && *final(self) == *old(self),
            old(self).held() is None ==> visible == final(self).arrived() && visible
                >= old(self).arrived(),
            final(self).incoming().stream() == old(self).incoming().stream(),
            final(self).incoming().taken() == old(self).incoming().taken(),
            old(self).incoming().placed() ==> final(self).incoming().placed(),
            final(self).outgoing() == old(self).outgoing(),
            final(self).at() == old(self).at(),
            final(self).held() == old(self).held(),
    {
        if self.pending_return.is_some() {
            0
        } else {
            self.ready.slots()
        }
    }

    /// Begin a callback: give back the item that is held, and count the items that
    /// the callback may work through.
    pub fn enter(&mut self) -> (budget: usize)
        ensures
            enters_lane(*old(self), *final(self), budget),
            old(self).incoming().placed() ==> final(self).incoming().placed(),
    {
        if self.return_pending() {
            self.visible()
        } else {
            0
        }
    }

    /// The item at the head, if it has arrived and none is stuck on the way
    /// back.
    pub fn peek(&self) -> (item: Option<&T>)
        ensures
            self.held() is Some ==> item is None,
            self.held() is None && self.arrived() > 0 ==> item is Some,
            item matches Some(w) ==> self.coming().len() > 0 && *w == self.coming()[0],
    {
        if self.pending_return.is_some() {
            None
        } else {
            self.ready.peek()
        }
    }

    pub fn offset(&self) -> (offset: usize)
        ensures
            offset == self.at(),
    {
        self.offset
    }

    /// Move on within the item at the head.
    pub fn advance(&mut self, frames: usize)
        requires
            old(self).at() + frames <= usize::MAX,
        ensures
            final(self).at() == old(self).at() + frames,
            final(self).incoming() == old(self).incoming(),
            final(self).outgoing() == old(self).outgoing(),
            final(self).held() == old(self).held(),
    {
        self.offset = self.offset + frames;
    }

    /// Take the item at the head out of play and give it back. An item that
    /// cannot be given back yet is held, and nothing is played until it is.
    pub fn retire(&mut self) -> (given: bool)
        ensures
            retires(*old(self), *final(self), given),
            final(self).incoming().stream() == old(self).incoming().stream(),
            old(self).incoming().placed() ==> final(self).incoming().placed(),
            final(self).outgoing().stream() == old(self).outgoing().stream(),
            old(self).held() is Some ==> !given && *final(self) == *old(self),
            old(self).held() is None && old(self).arrived() > 0 ==> final(self).incoming().taken()
                > old(self).incoming().taken(),
            final(self).incoming().taken() > old(self).incoming().taken() ==> {
                &&& old(self).coming().len() > 0
                &&& final(self).incoming().taken() == old(self).incoming().taken() + 1
                &&& final(self).coming() == old(self).coming().skip(1)
                &&& final(self).arrived() == if old(self).arrived() > 0 {
                    (old(self).arrived() - 1) as nat
                } else {
                    0
                }
                &&& final(self).at() == 0
                &&& given == (final(self).held() is None)
                &&& !given ==> final(self).held() == Some(old(self).coming()[0])
                &&& old(self).returnable() > 0 ==> given
                &&& final(self).returnable() == if old(self).returnable() > 0 {
                    (old(self).returnable() - 1) as nat
                } else {
                    0
                }
                &&& !given ==> final(self).outgoing().sent() == old(self).outgoing().sent()
                &&& given ==> final(self).outgoing().sent() == old(self).outgoing().sent() + 1
                    && old(self).outgoing().stream()[old(self).outgoing().sent() as int]
                    == old(self).coming()[0]
            },
            final(self).incoming().taken() <= old(self).incoming().taken() ==> {
                &&& !given
                &&& final(self).incoming().taken() == old(self).incoming().taken()
                &&& final(self).outgoing() == old(self).outgoing()
                &&& final(self).at() == old(self).at()
                &&& final(self).held() == old(self).held()
            },
    {
        if self.pending_return.is_some() {
            return false;
        }
        match self.ready.pop() {
            Some(item) => {
                assert(self.ready.coming() =~= old(self).ready.coming().skip(1));
                self.offset = 0;
                self.pending_return = Some(item);
                self.return_pending()
            },
            None => false,
        }
    }

    /// Give back the item that is held, if there is one: one attempt.
    pub fn return_pending(&mut self) -> (clear: bool)
        ensures
            gives_back(*old(self), *final(self), clear),
            final(self).incoming() == old(self).incoming(),
            final(self).at() == old(self).at(),
            final(self).outgoing().stream() == old(self).outgoing().stream(),
            clear == (final(self).held() is None),
            old(self).held() is None ==> *final(self) == *old(self),
            old(self).held() is Some && old(self).returnable() > 0 ==> clear,
            !clear ==> final(self).held() == old(self).held() && final(self).outgoing().sent()
                == old(self).outgoing().sent() && old(self).returnable() == 0,
            final(self).returnable() == if old(self).held() is None {
                old(self).returnable()
            } else if old(self).returnable() > 0 {
                (old(self).returnable() - 1) as nat
            } else {
                0
            },
            clear && old(self).held() is Some ==> final(self).outgoing().sent()
                == old(self).outgoing().sent() + 1
                && old(self).outgoing().stream()[old(self).outgoing().sent() as int]
                == old(self).held()->0,
    {
        match self.pending_return.take() {
            Some(item) => match self.retired.push(item) {
                Ok(_) => true,
                Err(item) => {
                    self.pending_return = Some(item);
                    false
                },
            },
            None => true,
        }
    }
}

/// Where the windows of a pipe are, in numbers.
pub struct Credits {
    pub free: int,
    pub ready: int,
    pub held: int,
    pub returned: int,
}

/// A move of one window.
pub enum Move {
    /// The worker publishes.
    Publish,
    /// The device retires the window at the head.
    Retire,
    /// The device gives back what it holds.
    Return,
    /// The worker reclaims.
    Reclaim,
}

pub open spec fn moves_to(a: Credits, step: Move, b: Credits) -> bool {
    match step {
        Move::Publish => a.free > 0 && b == (Credits {
            free: a.free - 1,
            ready: a.ready + 1,
            ..a
        }),
        Move::Retire => a.ready > 0 && a.held == 0 && b == (Credits {
            ready: a.ready - 1,
            held: 1,
            ..a
        }),
        Move::Return => a.held == 1 && b == (Credits { held: 0, returned: a.returned + 1, ..a }),
        Move::Reclaim => a.returned > 0 && b == (Credits {
            returned: a.returned - 1,
            free: a.free + 1,
            ..a
        }),
    }
}

/// All windows of a pipe are somewhere, and nowhere twice.
pub open spec fn accounted(c: Credits, limit: int) -> bool {
    &&& c.free >= 0 && c.ready >= 0 && 0 <= c.held <= 1 && c.returned >= 0
    &&& c.free + c.ready + c.held + c.returned == limit
}

/// Where the windows of a pipe are, told of its two ends.
pub open spec fn credits_of(prepare: PrepareSide, device: DeviceSide) -> Credits {
    Credits {
        free: prepare.credits().len() as int,
        ready: prepare.outgoing().sent() - device.incoming().taken(),
        held: if device.held() is Some {
            1
        } else {
            0
        },
        returned: device.outgoing().sent() - prepare.incoming().taken(),
    }
}

/// What publishing does to the worker's end.
pub open spec fn publishes(before: PrepareSide, after: PrepareSide, published: bool) -> bool {
    &&& after.bound() == before.bound()
    &&& after.account() == before.account()
    &&& after.incoming() == before.incoming()
    &&& after.outgoing().stream() == before.outgoing().stream()
    &&& after.outgoing().limit() == before.outgoing().limit()
    &&& if published {
        &&& before.credits().len() > 0
        &&& after.credits() == before.credits().drop_last()
        &&& after.building() == (Window {
            valid: 0,
            skipped_tail: None,
            ..before.credits().last()
        })
        &&& before.outgoing().sent() < before.outgoing().stream().len()
        &&& before.outgoing().stream()[before.outgoing().sent() as int] == before.building()
        &&& after.outgoing().sent() == before.outgoing().sent() + 1
    } else {
        &&& after.credits() == before.credits()
        &&& after.building() == before.building()
        &&& after.outgoing().sent() == before.outgoing().sent()
        &&& before.credits().len() > 0 ==> after.outgoing().room() == 0
    }
}

/// What reclaiming does to the worker's end.
pub open spec fn reclaims(before: PrepareSide, after: PrepareSide, reclaimed: usize) -> bool {
    &&& reclaimed <= before.incoming().coming().len()
    &&& after.credits() == before.credits() + before.incoming().coming().take(reclaimed as int)
    &&& after.incoming().stream() == before.incoming().stream()
    &&& after.incoming().taken() == before.incoming().taken() + reclaimed
    &&& after.building() == before.building()
    &&& after.outgoing() == before.outgoing()
    &&& after.bound() == before.bound()
    &&& after.account() == before.account()
}

/// What retiring the item at the head does to the device's end: it stays as it is, or the
/// item is given back, or held.
pub open spec fn retires<T: Plain>(
    before: DeviceLane<T>,
    after: DeviceLane<T>,
    given: bool,
) -> bool {
    &&& after.incoming().stream() == before.incoming().stream()
    &&& after.outgoing().stream() == before.outgoing().stream()
    &&& before.held() is Some ==> !given && after == before
    &&& if after.incoming().taken() > before.incoming().taken() {
        &&& before.coming().len() > 0
        &&& after.incoming().taken() == before.incoming().taken() + 1
        &&& after.coming() == before.coming().skip(1)
        &&& given == (after.held() is None)
        &&& !given ==> after.held() == Some(before.coming()[0]) && after.outgoing().sent()
            == before.outgoing().sent()
        &&& given ==> after.outgoing().sent() == before.outgoing().sent() + 1
            && before.outgoing().stream()[before.outgoing().sent() as int] == before.coming()[0]
    } else {
        &&& !given
        &&& after.incoming().taken() == before.incoming().taken()
        &&& after.outgoing() == before.outgoing()
        &&& after.held() == before.held()
    }
}

/// What giving back an item that is held does to the device's end.
pub open spec fn gives_back<T: Plain>(
    before: DeviceLane<T>,
    after: DeviceLane<T>,
    clear: bool,
) -> bool {
    &&& after.incoming() == before.incoming()
    &&& after.outgoing().stream() == before.outgoing().stream()
    &&& clear == (after.held() is None)
    &&& after.at() == before.at()
    &&& before.held() is None ==> after == before
    &&& before.held() is Some && before.returnable() > 0 ==> clear
    &&& !clear ==> after.held() == before.held() && after.outgoing().sent()
        == before.outgoing().sent()
    &&& clear && before.held() is Some ==> after.outgoing().sent() == before.outgoing().sent() + 1
        && before.outgoing().stream()[before.outgoing().sent() as int] == before.held()->0
}

/// How a callback begins at the device's end: an item that is held is given back, as long
/// as there is room for it. Then the callback may work through the items that have
/// arrived, all of them, and through none while one is held.
pub open spec fn enters_lane<T: Plain>(
    before: DeviceLane<T>,
    after: DeviceLane<T>,
    budget: usize,
) -> bool {
    &&& after.incoming().stream() == before.incoming().stream()
    &&& after.incoming().taken() == before.incoming().taken()
    &&& after.arrived() >= before.arrived()
    &&& after.coming() == before.coming()
    &&& after.at() == before.at()
    &&& after.outgoing().stream() == before.outgoing().stream()
    &&& before.held() is None ==> after.held() is None && after.outgoing() == before.outgoing()
    &&& before.held() is Some && before.returnable() > 0 ==> after.held() is None
    &&& after.held() is Some ==> after.held() == before.held() && after.outgoing().sent()
        == before.outgoing().sent()
    &&& before.held() is Some && after.held() is None ==> after.outgoing().sent()
        == before.outgoing().sent() + 1
        && before.outgoing().stream()[before.outgoing().sent() as int] == before.held()->0
    &&& budget == if after.held() is None {
        after.arrived()
    } else {
        0
    }
}

/// No window is lost or made by what either end does: publishing, reclaiming, retiring
/// and giving back leave as many windows in a pipe as there were.
pub proof fn windows_are_conserved(
    prepare: PrepareSide,
    prepare_after: PrepareSide,
    device: DeviceSide,
    device_after: DeviceSide,
    done: bool,
    reclaimed: usize,
    limit: int,
)
    requires
        accounted(credits_of(prepare, device), limit),
        ({
            ||| publishes(prepare, prepare_after, done) && device_after == device
            ||| reclaims(prepare, prepare_after, reclaimed) && device_after == device && reclaimed
                <= credits_of(prepare, device).returned
            ||| retires(device, device_after, done) && prepare_after == prepare && (
            device_after.incoming().taken() > device.incoming().taken() ==> credits_of(
                prepare,
                device,
            ).ready > 0)
            ||| gives_back(device, device_after, done) && prepare_after == prepare
        }),
    ensures
        accounted(credits_of(prepare_after, device_after), limit),
{
}

/// A credit always has its place on the way out: as long as a window is free, fewer are on
/// the way to the device than the ring has slots. Without one, nothing is published.
pub proof fn a_credit_has_its_place(
    prepare: PrepareSide,
    after: PrepareSide,
    device: DeviceSide,
    published: bool,
    limit: usize,
)
    requires
        accounted(credits_of(prepare, device), limit as int),
        prepare.outgoing().limit() == limit,
        publishes(prepare, after, published),
    ensures
        prepare.credits().len() > 0 <==> prepare.outgoing().sent() - device.incoming().taken()
            + in_use(prepare, device) < prepare.outgoing().limit(),
        prepare.credits().len() > 0 ==> prepare.outgoing().sent() - device.incoming().taken()
            < prepare.outgoing().limit(),
        prepare.credits().len() == 0 ==> !published,
        !published && prepare.credits().len() > 0 ==> after.outgoing().room() == 0,
{
}

/// The windows that are neither free nor on the way to the device.
pub open spec fn in_use(prepare: PrepareSide, device: DeviceSide) -> int {
    credits_of(prepare, device).held + credits_of(prepare, device).returned
}

/// A fresh pipe has all its windows.
pub proof fn a_fresh_pipe_is_accounted(
    prepare: PrepareSide,
    device: DeviceSide,
    limit: usize,
    frames: usize,
    channels: usize,
)
    requires
        fresh(prepare, device, limit, frames, channels),
    ensures
        accounted(credits_of(prepare, device), limit as int),
{
}

/// No window is lost or made, whatever moves; and a ring of as many slots as the
/// pipe has windows never lacks room: a window that is free fits on the way out,
/// and one that is held fits on the way back.
pub proof fn credits_bound_both_rings(a: Credits, step: Move, b: Credits, limit: int)
    requires
        accounted(a, limit),
        moves_to(a, step, b),
    ensures
        accounted(b, limit),
        step is Publish ==> a.ready < limit,
        step is Return ==> a.returned < limit,
{
}

} // verus!
