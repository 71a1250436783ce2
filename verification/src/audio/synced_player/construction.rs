//! What a player is made of.
use super::player::{build, BuildError, Player};
use super::queue::PlaybackQueue;
use crate::audio::owner::OwnerState;
use crate::audio::{PlayerScope, RendererOwner};
use vstd::prelude::*;

verus! {

/// A player that is built begins with four free windows of its format, nothing prepared and nothing
/// under way, no output started and nothing known of its timing. Its worker and its device share one
/// publication, and what the device reports arrives at the player. It is made for the scope and with
/// the delay that were given, and the queue keeps its source and is attached.
pub proof fn a_player_begins_with_nothing_prepared(
    queue: &mut PlaybackQueue,
    sample_rate: u32,
    channels: usize,
    owner: &RendererOwner,
    scope: PlayerScope,
    delay_us: u64,
    player: Result<Player, BuildError>,
)
    requires
        call_ensures(build, (queue, sample_rate, channels, owner, scope, delay_us), player),
    ensures
        final(queue).source() == old(queue).source(),
        final(queue).next_source_id == old(queue).next_source_id,
        player matches Ok(p) ==> {
            &&& final(queue).attached
            &&& p.worker.producer.credits().len() == 4
            &&& p.worker.producer.outgoing().sent() == 0
            &&& p.worker.producer.outgoing().stream() == p.device.pipe.incoming().stream()
            &&& p.device.pipe.outgoing().stream() == p.worker.producer.incoming().stream()
            &&& p.device.pipe.incoming().taken() == 0
            &&& p.device.pipe.at() == 0 && p.device.pipe.held() is None
            &&& p.device.reader@.channels() == channels
            &&& !p.device.state.started && p.device.state.minimum_epoch == 0
            &&& p.device.state.generation is None && p.device.state.floor_ns is None
            &&& p.device.state.last_ns is None
            &&& p.device.cached_timing is None
            &&& p.device.events.stream() == p.events.stream()
            &&& p.device.publication == p.worker.publication
            &&& p.device.diagnostics.sample_rate == sample_rate
            &&& p.worker.publication.channels == channels
            &&& p.worker.publication.limits == owner.limits()
            &&& p.worker.channels == channels && p.worker.sample_rate == sample_rate
            &&& p.worker.scope == scope && p.worker.owner == *owner
            &&& p.worker.state.applied_delay_us == delay_us
            &&& p.worker.state.snapshot is None && !p.worker.state.pending_window
            &&& p.worker.private.source().order().len() == 0
        },
        player == Err::<Player, BuildError>(BuildError::StaleScope) ==> *final(queue) == *old(queue)
            && exists|found: OwnerState| #[trigger]
            owner.turns(found, found) && found.book.id != scope.id,
        player == Err::<Player, BuildError>(BuildError::InvalidFormat) ==> *final(queue) == *old(
            queue,
        ),
{
}

} // verus!
