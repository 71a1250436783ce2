//! What a device has consumed, for the scope that it plays for.
use crate::audio::owner::OwnerState;
use crate::audio::synced_player::shared::got_u64;
use crate::audio::{PlayerScope, RendererOperationOutcome, RendererOwner};
use std::sync::atomic::{AtomicU64, Ordering};
use std::sync::Arc;
use vstd::prelude::*;

verus! {

/// The count that a device publishes, read under its scope. The owner says whether
/// the scope is the present one; its own tally is not what is read.
pub struct ScopedConsumption {
    pub owner: RendererOwner,
    pub scope: PlayerScope,
    pub actual: Arc<AtomicU64>,
}

impl ScopedConsumption {
    pub fn read(&self, requested: PlayerScope) -> (frames: Result<u64, RendererOperationOutcome>)
        ensures
            requested != self.scope ==> frames is Err,
            frames matches Err(error) ==> error == RendererOperationOutcome::StaleScope,
            requested == self.scope ==> exists|found: OwnerState| #[trigger]
                self.owner.turns(found, found) && match frames {
                    Ok(count) => found.book.id == requested.id && got_u64(*self.actual, count),
                    Err(_) => found.book.id != requested.id,
                },
    {
        if requested != self.scope {
            return Err(RendererOperationOutcome::StaleScope);
        }
        match self.owner.consumed_frames(requested) {
            Ok(_) => Ok(self.actual.load(Ordering::Acquire)),
            Err(error) => Err(error),
        }
    }
}

} // verus!
