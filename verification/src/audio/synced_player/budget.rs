//! What is asked for when a player is built, and how its windows move.
use super::allocation::{
    lemma_sum_nonnegative, padded, player_parts, sum_of, total_of, Capacities,
};
use super::device::Device;
use super::player::{block, block_frames, plan_for, player_plan, room_wanted, BuildError, Plan};
use super::preparation::Window;
use super::queue::QueuedAudioBuffer;
use super::revision::{is_published, revisions_after};
use super::runtime::{OBSERVATIONS, WINDOWS};
use super::shared::Plain;
use super::transport::{
    account_of, enters_lane, plan_of, publishes, reclaims, representable, retires, Allocation,
    DeviceLane, PrepareSide,
};
use super::worker::{DeviceEvent, Worker};
use crate::audio::owner::RendererHealth;
use crate::audio::{RendererOperationOutcome, RendererQueueLimits};
use rtrb::RingBuffer;
use vstd::layout::size_of;
use vstd::prelude::*;

verus! {

/// A block is a fiftieth of a second, rounded down, but at least one frame and no more than one
/// buffer may have.
pub proof fn a_block_is_a_fiftieth_of_a_second(
    sample_rate: u32,
    max_chunk_frames: usize,
    frames: usize,
)
    requires
        call_ensures(block_frames, (sample_rate, max_chunk_frames), frames),
    ensures
        frames <= max_chunk_frames,
        frames < max_chunk_frames && sample_rate >= 50 ==> frames * 50 <= sample_rate < (frames + 1)
            * 50,
        frames < max_chunk_frames && sample_rate < 50 ==> frames == 1,
        frames == max_chunk_frames && frames > 1 ==> frames * 50 <= sample_rate,
        max_chunk_frames > 0 ==> frames > 0,
        frames == block(sample_rate, max_chunk_frames),
{
}

/// Room is made for every buffer that may be queued, beside those that are, and for no more.
pub proof fn room_is_made_for_every_buffer(queued: usize, hard_buffers: usize, room: usize)
    requires
        call_ensures(room_wanted, (queued, hard_buffers), room),
    ensures
        queued + room >= hard_buffers,
        room > 0 ==> queued + room == hard_buffers,
{
}

/// A player is planned from the limits of its scope, and a stale scope comes before everything
/// else. A plan has the frames of one block, and as many samples as these have channels.
pub proof fn a_player_is_planned_by_its_scope(
    health: Result<RendererHealth, RendererOperationOutcome>,
    sample_rate: u32,
    channels: usize,
    plan: Result<(RendererQueueLimits, Plan), BuildError>,
)
    requires
        call_ensures(plan_for, (health, sample_rate, channels), plan),
    ensures
        health is Err ==> plan == Err::<(RendererQueueLimits, Plan), BuildError>(
            BuildError::StaleScope,
        ),
        health matches Ok(h) ==> {
            &&& plan matches Ok(made) ==> {
                &&& made.0 == h.of().limits
                &&& made.1.frames == block(sample_rate, h.of().limits.chunk())
                &&& made.1.samples == made.1.frames * channels
                &&& representable(WINDOWS, made.1.frames, channels)
                &&& Some(made.1.pipe) == plan_of(WINDOWS, made.1.frames, channels)
            }
            &&& plan is Err ==> block(sample_rate, h.of().limits.chunk()) * channels > usize::MAX
                || !representable(
                WINDOWS,
                block(sample_rate, h.of().limits.chunk()) as usize,
                channels,
            ) || player_plan(h.of().limits, sample_rate, channels) is Err
            &&& channels == 0 ==> plan == Err::<(RendererQueueLimits, Plan), BuildError>(
                BuildError::InvalidFormat,
            )
        },
{
    match health {
        Ok(h) => {
            let frames = block(sample_rate, h.of().limits.chunk());
            assert(frames * 0 == 0);
        },
        Err(_) => {},
    }
}

proof fn lemma_sum_of_pushed(parts: Seq<Option<usize>>, bytes: usize)
    ensures
        sum_of(parts.push(Some(bytes))) == sum_of(parts) + bytes,
{
    assert(parts.push(Some(bytes)).drop_last() =~= parts);
}

/// Parts add up to their sum: one more part adds its bytes, one that cannot be told makes the
/// whole so, and nothing is nothing.
pub proof fn parts_add_up(
    parts: Seq<Option<usize>>,
    bytes: usize,
    before: Option<usize>,
    after: Option<usize>,
)
    requires
        before == total_of(parts),
        after == total_of(parts.push(Some(bytes))),
    ensures
        total_of(Seq::<Option<usize>>::empty()) == Some(0usize),
        before matches Some(total) ==> if total + bytes <= usize::MAX {
            after == Some((total + bytes) as usize)
        } else {
            after is None
        },
        before is None ==> after is None,
        total_of(parts.push(None)) is None,
{
    let more = parts.push(Some(bytes));
    lemma_sum_of_pushed(parts, bytes);
    lemma_sum_nonnegative(parts);
    assert(parts.push(None::<usize>)[parts.len() as int] is None);
    if forall|i: int| 0 <= i < parts.len() ==> #[trigger] parts[i] is Some {
        assert forall|i: int| 0 <= i < more.len() implies #[trigger] more[i] is Some by {
            if i < parts.len() {
                assert(more[i] == parts[i]);
            }
        }
    } else {
        let i = choose|i: int| 0 <= i < parts.len() && !(#[trigger] parts[i] is Some);
        assert(more[i] == parts[i]);
    }
}

/// A padded size is a multiple of its alignment, not below the size, and by less than one
/// alignment above it.
pub proof fn a_padded_size_is_the_next_multiple(size: int, align: int)
    requires
        size >= 0,
        align > 0,
    ensures
        padded(size, align) is Some <==> size + align - 1 <= usize::MAX,
        padded(size, align) matches Some(bytes) ==> bytes as int % align == 0 && size <= bytes
            < size + align,
{
    let raised = size + align - 1;
    let whole = raised / align;
    assert(raised == whole * align + raised % align && 0 <= raised % align < align)
        by (nonlinear_arith)
        requires
            align > 0,
            whole == raised / align,
    ;
    assert(0 <= whole * align) by (nonlinear_arith)
        requires
            raised >= 0,
            align > 0,
            whole == raised / align,
    ;
    assert((whole * align) % align == 0) by (nonlinear_arith)
        requires
            align > 0,
    ;
}

/// A player accounts for all samples that may be queued, for both queues, for the reports and for
/// its blocks, each by the number that there is room for.
pub proof fn a_player_accounts_for_what_it_holds(
    limits: RendererQueueLimits,
    channels: usize,
    pipe: Allocation,
    capacities: Capacities,
)
    requires
        limits.frames() * channels <= usize::MAX,
        pipe.requested_bytes_without_arc_headers >= pipe.endpoint_bytes,
    ensures
        ({
            let parts = player_parts(limits, channels, pipe, capacities);
            &&& parts.len() == 21
            &&& parts[0] matches Some(bytes) ==> bytes == (limits.frames() * channels) * size_of::<
                i32,
            >()
            &&& parts[1] matches Some(bytes) ==> bytes == capacities.canonical * size_of::<
                QueuedAudioBuffer,
            >()
            &&& parts[2] matches Some(bytes) ==> bytes == capacities.private * size_of::<
                QueuedAudioBuffer,
            >()
            &&& parts[3] == Some(
                (pipe.requested_bytes_without_arc_headers - pipe.endpoint_bytes) as usize,
            )
            &&& parts[4] matches Some(bytes) ==> bytes == capacities.events * size_of::<
                DeviceEvent,
            >()
            &&& parts[5] == Some(size_of::<RingBuffer<DeviceEvent>>() as usize)
            &&& parts[6] == Some(size_of::<Worker>() as usize)
            &&& parts[7] == Some(size_of::<Device>() as usize)
            &&& parts[18] matches Some(bytes) ==> bytes == capacities.last * size_of::<i32>()
            &&& parts[19] matches Some(bytes) ==> bytes == capacities.samples * size_of::<i32>()
            &&& parts[20] matches Some(bytes) ==> bytes == capacities.output * size_of::<u32>()
        }),
{
}

/// The account of a pipe adds up to what it asks for: the payload of its windows, three rows of
/// slots, its ends and its rings. It has one window more than may be on the way.
pub proof fn a_pipe_accounts_for_what_it_asks(
    limit: usize,
    frames: usize,
    channels: usize,
    free_capacity: usize,
    totals: Option<(usize, usize, usize)>,
)
    requires
        limit < usize::MAX,
        frames * channels <= usize::MAX,
        limit * size_of::<Window>() <= usize::MAX,
    ensures
        account_of(limit, frames, channels, free_capacity, totals) matches Some(a) ==> {
            &&& totals matches Some(t) && a.frame_capacity_total == t.0 && a.sample_capacity_total
                == t.1 && a.window_payload_bytes == t.2
            &&& a.windows == limit + 1
            &&& a.frames_per_window == frames
            &&& a.samples_per_window == frames * channels
            &&& a.free_capacity == free_capacity
            &&& a.ready_capacity == limit && a.retired_capacity == limit
            &&& a.ready_slot_bytes == limit * size_of::<Window>()
            &&& a.retired_slot_bytes == a.ready_slot_bytes
            &&& a.free_slot_bytes == free_capacity * size_of::<Window>()
            &&& a.requested_bytes_without_arc_headers == a.window_payload_bytes + a.free_slot_bytes
                + a.ready_slot_bytes + a.retired_slot_bytes + a.endpoint_bytes
                + a.ring_control_bytes
        },
        totals is None ==> account_of(limit, frames, channels, free_capacity, totals) is None,
{
    assert(0 <= limit * size_of::<Window>()) by (nonlinear_arith);
}

/// A window that is published is the one that was built, unchanged, behind all before it; building
/// goes on in a free one, which holds nothing. Without one, or without room, nothing changes.
pub proof fn a_published_window_is_the_one_that_was_built(
    before: PrepareSide,
    after: PrepareSide,
    published: bool,
)
    requires
        publishes(before, after, published),
    ensures
        published ==> before.outgoing().stream()[before.outgoing().sent() as int]
            == before.building(),
        published ==> after.outgoing().sent() == before.outgoing().sent() + 1,
        published ==> after.credits().len() == before.credits().len() - 1,
        published ==> after.building().valid == 0 && after.building().skipped_tail is None
            && after.building().frames == before.credits().last().frames && after.building().pcm
            == before.credits().last().pcm,
        !published ==> after.building() == before.building() && after.credits()
            == before.credits() && after.outgoing().sent() == before.outgoing().sent(),
{
}

/// Windows that the device has returned are free again, in the order in which they came back.
pub proof fn returned_windows_are_free_again(
    before: PrepareSide,
    after: PrepareSide,
    reclaimed: usize,
)
    requires
        reclaims(before, after, reclaimed),
    ensures
        after.credits().len() == before.credits().len() + reclaimed,
        forall|i: int|
            0 <= i < before.credits().len() ==> #[trigger] after.credits()[i]
                == before.credits()[i],
        forall|i: int|
            0 <= i < reclaimed ==> after.credits()[before.credits().len() + i]
                == #[trigger] before.incoming().coming()[i],
        after.building() == before.building(),
        after.incoming().taken() == before.incoming().taken() + reclaimed,
{
}

/// The item at the head is given back as it is, or held where there is no room for it; the next one
/// is at the head then. Nothing is retired while one is held.
pub proof fn a_retired_item_goes_back_or_is_held<T: Plain>(
    before: DeviceLane<T>,
    after: DeviceLane<T>,
    given: bool,
)
    requires
        retires(before, after, given),
    ensures
        before.held() is Some ==> after == before && !given,
        given ==> before.coming().len() > 0 && after.coming() == before.coming().skip(1)
            && before.outgoing().stream()[before.outgoing().sent() as int] == before.coming()[0]
            && after.outgoing().sent() == before.outgoing().sent() + 1 && after.held() is None,
        !given && after.coming() != before.coming() ==> after.held() == Some(before.coming()[0])
            && after.outgoing().sent() == before.outgoing().sent(),
{
}

/// A callback first gives back what is held, as long as there is room, and may then work through
/// what has arrived, all of it; through nothing while something is held. It takes nothing out.
pub proof fn a_callback_may_work_through_what_has_arrived<T: Plain>(
    before: DeviceLane<T>,
    after: DeviceLane<T>,
    budget: usize,
)
    requires
        enters_lane(before, after, budget),
    ensures
        after.coming() == before.coming(),
        after.at() == before.at(),
        after.held() is None ==> budget == after.arrived(),
        after.held() is Some ==> budget == 0 && after.held() == before.held(),
        before.held() is None ==> after.held() is None,
        before.held() is Some && before.returnable() > 0 ==> after.held() is None,
        before.held() is Some && after.held() is None
            ==> before.outgoing().stream()[before.outgoing().sent() as int] == before.held()->0,
{
}

/// A publication has two revisions that no other one has: an odd one while it is written, and the
/// even one after it once it stands.
pub proof fn a_publication_has_revisions_of_its_own(
    revision: u64,
    next: Option<(u64, u64)>,
    published: bool,
)
    requires
        call_ensures(revisions_after, (revision,), next),
        call_ensures(is_published, (revision,), published),
    ensures
        next matches Some((writing, written)) ==> writing == revision + 1 && written == revision + 2
            && revision % 2 == 0 && writing % 2 == 1 && written % 2 == 0,
        next is None <==> revision % 2 == 1 || revision > u64::MAX - 2,
        published <==> revision > 0 && revision % 2 == 0,
{
}

/// A player has four windows on the way and room for sixty-four reports.
pub proof fn a_player_has_its_windows_and_reports()
    ensures
        WINDOWS == 4,
        OBSERVATIONS == 64,
{
}

} // verus!
