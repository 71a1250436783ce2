//! What a player allocates, in bytes of requested layouts.
use super::device::Device;
use super::handoff_probe::timeline::feedback::ValidatedPlanMailbox;
use super::ingress::checkpoint::PublishedCheckpoint;
use super::ingress::ControlGate;
use super::preparation::{array_bytes, layout_bytes};
use super::queue::QueuedAudioBuffer;
use super::runtime::TimingMailbox;
use super::source::Publication;
use super::transport::Allocation;
use super::worker::{DeviceEvent, Worker};
use crate::audio::{PlayerScope, RendererOwner, RendererQueueLimits};
use rtrb::RingBuffer;
use std::sync::atomic::{AtomicBool, AtomicU64};
use vstd::layout::{align_nonzero, align_of, size_of};
use vstd::prelude::*;

verus! {

/// The sum of all parts.
pub open spec fn sum_of(parts: Seq<Option<usize>>) -> int
    decreases parts.len(),
{
    if parts.len() == 0 {
        0
    } else {
        sum_of(parts.drop_last()) + match parts.last() {
            Some(bytes) => bytes as int,
            None => 0,
        }
    }
}

/// The bytes of all parts together, as long as every part and the whole can be
/// told.
pub open spec fn total_of(parts: Seq<Option<usize>>) -> Option<usize> {
    if (forall|i: int| 0 <= i < parts.len() ==> #[trigger] parts[i] is Some) && sum_of(parts)
        <= usize::MAX {
        Some(sum_of(parts) as usize)
    } else {
        None
    }
}

proof fn lemma_sum_grows(parts: Seq<Option<usize>>, count: int)
    requires
        0 <= count <= parts.len(),
    ensures
        0 <= sum_of(parts.take(count)) <= sum_of(parts),
    decreases parts.len() - count,
{
    lemma_sum_nonnegative(parts.take(count));
    if count < parts.len() {
        lemma_sum_grows(parts, count + 1);
        assert(parts.take(count + 1).drop_last() =~= parts.take(count));
    } else {
        assert(parts.take(count) =~= parts);
    }
}

pub(crate) proof fn lemma_sum_nonnegative(parts: Seq<Option<usize>>)
    ensures
        sum_of(parts) >= 0,
    decreases parts.len(),
{
    if parts.len() > 0 {
        lemma_sum_nonnegative(parts.drop_last());
    }
}

/// Add up parts.
pub fn add_up(parts: &Vec<Option<usize>>) -> (total: Option<usize>)
    ensures
        total == total_of(parts@),
{
    let mut sum: usize = 0;
    let mut i: usize = 0;
    assert(parts@.take(0) =~= Seq::<Option<usize>>::empty());
    while i < parts.len()
        invariant
            i <= parts@.len(),
            sum == sum_of(parts@.take(i as int)),
            forall|k: int| 0 <= k < i ==> #[trigger] parts@[k] is Some,
        decreases parts@.len() - i,
    {
        proof {
            assert(parts@.take(i + 1).drop_last() =~= parts@.take(i as int));
            assert(parts@.take(i + 1).last() == parts@[i as int]);
            lemma_sum_grows(parts@, i + 1);
        }
        match parts[i] {
            Some(bytes) => match sum.checked_add(bytes) {
                Some(more) => {
                    sum = more;
                },
                None => {
                    return None;
                },
            },
            None => {
                assert(parts@[i as int] is None);
                return None;
            },
        }
        i += 1;
    }
    assert(parts@.take(i as int) =~= parts@);
    Some(sum)
}

/// The smallest multiple of an alignment that is not below a size, as long as it
/// can be told.
pub open spec fn padded(size: int, align: int) -> Option<usize> {
    if size + align - 1 <= usize::MAX {
        Some(((size + align - 1) / align * align) as usize)
    } else {
        None
    }
}

/// The bytes that a shared value takes: two counters and the value, each where its
/// alignment allows, and the whole a multiple of the larger alignment.
pub open spec fn shared_bytes<T>() -> Option<usize> {
    let whole = if align_of::<T>() > align_of::<usize>() {
        align_of::<T>() as int
    } else {
        align_of::<usize>() as int
    };
    match padded(2 * size_of::<usize>() as int, align_of::<T>() as int) {
        Some(start) => padded(start + size_of::<T>(), whole),
        None => None,
    }
}

fn pad(size: usize, align: usize) -> (bytes: Option<usize>)
    requires
        align > 0,
    ensures
        bytes == padded(size as int, align as int),
{
    let raised: usize = size.checked_add(align - 1)?;
    proof {
        assert(0 <= raised as int / align as int * align as int <= raised) by (nonlinear_arith)
            requires
                align > 0,
                raised >= 0,
        ;
    }
    Some(raised / align * align)
}

/// The bytes of a value inside another.
fn inline_bytes<T>() -> (bytes: Option<usize>)
    ensures
        bytes == Some(size_of::<T>() as usize),
        size_of::<T>() <= usize::MAX,
{
    Some(core::mem::size_of::<T>())
}

/// The bytes of a shared value.
pub fn arc_bytes<T>() -> (bytes: Option<usize>)
    ensures
        bytes == shared_bytes::<T>(),
{
    let align: usize = core::mem::align_of::<T>();
    let word: usize = core::mem::align_of::<usize>();
    let size: usize = core::mem::size_of::<T>();
    proof {
        broadcast use align_nonzero;

        assert(align_of::<T>() > 0);
        assert(align_of::<usize>() > 0);
    }
    let counters: usize = match core::mem::size_of::<usize>().checked_mul(2) {
        Some(counters) => counters,
        None => {
            return None;
        },
    };
    let start: usize = pad(counters, align)?;
    let end: usize = match start.checked_add(size) {
        Some(end) => end,
        None => {
            return None;
        },
    };
    pad(
        end,
        if align > word {
            align
        } else {
            word
        },
    )
}

/// The bytes that a pipe takes besides its two ends, which lie inside the worker
/// and the device.
pub open spec fn pipe_bytes(allocation: Allocation) -> Option<usize> {
    if allocation.requested_bytes_without_arc_headers >= allocation.endpoint_bytes {
        Some(
            (allocation.requested_bytes_without_arc_headers
                - allocation.endpoint_bytes) as usize,
        )
    } else {
        None
    }
}

fn pipe_share(allocation: Allocation) -> (bytes: Option<usize>)
    ensures
        bytes == pipe_bytes(allocation),
{
    allocation.requested_bytes_without_arc_headers.checked_sub(allocation.endpoint_bytes)
}

/// The capacities that a player's own allocations have.
#[derive(Clone, Copy, Debug, PartialEq, Eq, Structural)]
pub struct Capacities {
    pub canonical: usize,
    pub private: usize,
    pub events: usize,
    pub last: usize,
    pub samples: usize,
    pub output: usize,
}

/// The largest number of samples that may be queued.
pub open spec fn queued_samples(limits: RendererQueueLimits, channels: usize) -> Option<usize> {
    if limits.frames() * channels <= usize::MAX {
        Some((limits.frames() * channels) as usize)
    } else {
        None
    }
}

/// Everything that a player allocates for itself, each once: queued samples and
/// their two queues, the pipe, the ring of reports, the worker and the device
/// with what they share, the last frame, and two blocks of samples.
pub open spec fn player_parts(
    limits: RendererQueueLimits,
    channels: usize,
    pipe: Allocation,
    capacities: Capacities,
) -> Seq<Option<usize>> {
    seq![
        match queued_samples(limits, channels) {
            Some(samples) => array_bytes::<i32>(samples),
            None => None,
        },
        array_bytes::<QueuedAudioBuffer>(capacities.canonical),
        array_bytes::<QueuedAudioBuffer>(capacities.private),
        pipe_bytes(pipe),
        array_bytes::<DeviceEvent>(capacities.events),
        Some(size_of::<RingBuffer<DeviceEvent>>() as usize),
        Some(size_of::<Worker>() as usize),
        Some(size_of::<Device>() as usize),
        Some(size_of::<RendererOwner>() as usize),
        Some(size_of::<PlayerScope>() as usize),
        shared_bytes::<Publication>(),
        shared_bytes::<ControlGate>(),
        shared_bytes::<PublishedCheckpoint>(),
        shared_bytes::<ValidatedPlanMailbox>(),
        shared_bytes::<TimingMailbox>(),
        shared_bytes::<AtomicBool>(),
        shared_bytes::<AtomicU64>(),
        shared_bytes::<AtomicU64>(),
        array_bytes::<i32>(capacities.last),
        array_bytes::<i32>(capacities.samples),
        array_bytes::<u32>(capacities.output),
    ]
}

/// The bytes that a player allocates for itself. `None` where they cannot be
/// told.
pub fn allocation_budget(
    limits: RendererQueueLimits,
    channels: usize,
    pipe: Allocation,
    capacities: Capacities,
) -> (bytes: Option<usize>)
    ensures
        bytes == total_of(player_parts(limits, channels, pipe, capacities)),
{
    let pcm: Option<usize> = match limits.hard_frames().checked_mul(channels) {
        Some(samples) => layout_bytes::<i32>(samples),
        None => None,
    };
    let mut parts: Vec<Option<usize>> = Vec::new();
    parts.push(pcm);
    parts.push(layout_bytes::<QueuedAudioBuffer>(capacities.canonical));
    parts.push(layout_bytes::<QueuedAudioBuffer>(capacities.private));
    parts.push(pipe_share(pipe));
    parts.push(layout_bytes::<DeviceEvent>(capacities.events));
    parts.push(inline_bytes::<RingBuffer<DeviceEvent>>());
    parts.push(inline_bytes::<Worker>());
    parts.push(inline_bytes::<Device>());
    parts.push(inline_bytes::<RendererOwner>());
    parts.push(inline_bytes::<PlayerScope>());
    parts.push(arc_bytes::<Publication>());
    parts.push(arc_bytes::<ControlGate>());
    parts.push(arc_bytes::<PublishedCheckpoint>());
    parts.push(arc_bytes::<ValidatedPlanMailbox>());
    parts.push(arc_bytes::<TimingMailbox>());
    parts.push(arc_bytes::<AtomicBool>());
    parts.push(arc_bytes::<AtomicU64>());
    parts.push(arc_bytes::<AtomicU64>());
    parts.push(layout_bytes::<i32>(capacities.last));
    parts.push(layout_bytes::<i32>(capacities.samples));
    parts.push(layout_bytes::<u32>(capacities.output));
    assert(parts@ =~= player_parts(limits, channels, pipe, capacities));
    add_up(&parts)
}

} // verus!
