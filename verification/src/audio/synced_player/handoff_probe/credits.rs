//! What goes through a pipe with credits.
use super::bounded::{pipe_for, CreditSide};
use crate::audio::synced_player::shared::Plain;
use crate::audio::synced_player::transport::DeviceLane;
use vstd::prelude::*;

verus! {

/// An item is published only under a credit, and takes it; it arrives as the next one. One that cannot
/// be published comes back, and nothing changes.
pub proof fn an_item_is_published_under_a_credit<T: Plain>(
    side: &mut CreditSide<T>,
    item: T,
    result: Result<(), T>,
)
    requires
        call_ensures(CreditSide::<T>::publish, (side, item), result),
    ensures
        old(side).free() == 0 ==> result is Err,
        old(side).free() > 0 && old(side).outgoing().room() > 0 ==> result is Ok,
        result is Ok ==> final(side).free() == old(side).free() - 1
            && final(side).outgoing().sent() == old(side).outgoing().sent() + 1
            && final(side).outgoing().stream()[old(side).outgoing().sent() as int] == item,
        result matches Err(back) ==> back == item && final(side).free() == old(side).free()
            && final(side).outgoing().sent() == old(side).outgoing().sent(),
        final(side).outgoing().stream() == old(side).outgoing().stream(),
{
}

/// Items that come back are credits again, one for each.
pub proof fn a_returned_item_is_a_credit_again<T: Plain>(
    side: &mut CreditSide<T>,
    reclaimed: usize,
)
    requires
        call_ensures(CreditSide::<T>::reclaim, (side,), reclaimed),
    ensures
        final(side).free() == old(side).free() + reclaimed,
        final(side).incoming().taken() == old(side).incoming().taken() + reclaimed,
        final(side).outgoing() == old(side).outgoing(),
        final(side).free() < final(side).bound() ==> reclaimed >= old(side).incoming().ready(),
{
}

/// A pipe begins with all its credits and nothing under way, and what one side publishes the other
/// receives.
pub proof fn a_pipe_begins_with_all_its_credits<T: Plain>(
    limit: usize,
    ends: Option<(CreditSide<T>, DeviceLane<T>)>,
)
    requires
        call_ensures(pipe_for::<T>, (limit,), ends),
    ensures
        ends matches Some((prepare, device)) ==> {
            &&& prepare.free() == limit
            &&& prepare.outgoing().sent() == 0
            &&& device.incoming().taken() == 0
            &&& prepare.outgoing().stream() == device.incoming().stream()
            &&& device.outgoing().stream() == prepare.incoming().stream()
            &&& device.at() == 0 && device.held() is None
        },
{
}

} // verus!
