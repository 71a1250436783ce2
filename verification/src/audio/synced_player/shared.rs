//! The operations on shared memory: what was asked of a cell, what it gave, and the few
//! operations that need a claim of their own.
//!
//! Nothing is known of what a cell holds, because other threads change it. What can be told
//! is which operation was made on which cell, with which value, and what came of it. Each
//! predicate here says that of one operation; contracts over shared memory are stated with
//! them. In which order the operations of one call were made is not told; the models in
//! `ingress/protocol.rs`, `revision.rs` and `handoff_probe/timeline/checkpoint.rs` are where
//! order counts.
use crate::audio::synced_player::handoff_probe::bounded::PreparedSource;
use crate::audio::synced_player::handoff_probe::timeline::feedback::{
    Observation, ValidatedObservation,
};
use crate::audio::synced_player::handoff_probe::timeline::Span;
use crate::audio::synced_player::preparation::Window;
use crate::audio::synced_player::worker::DeviceEvent;
use std::sync::atomic::{
    AtomicBool, AtomicI32, AtomicI64, AtomicU32, AtomicU64, AtomicU8, AtomicUsize, Ordering,
};
use vstd::prelude::*;

verus! {

/// A load of the cell gave this.
pub open spec fn got_u64(cell: AtomicU64, value: u64) -> bool {
    ||| call_ensures(AtomicU64::load, (&cell, Ordering::Acquire), value)
    ||| call_ensures(AtomicU64::load, (&cell, Ordering::Relaxed), value)
}

/// This was stored in the cell.
pub open spec fn put_u64(cell: AtomicU64, value: u64) -> bool {
    ||| call_ensures(AtomicU64::store, (&cell, value, Ordering::Release), ())
    ||| call_ensures(AtomicU64::store, (&cell, value, Ordering::Relaxed), ())
}

/// The cell was made with this.
pub open spec fn made_u64(cell: AtomicU64, value: u64) -> bool {
    call_ensures(AtomicU64::new, (value,), cell)
}

/// A load of the cell gave this.
pub open spec fn got_i64(cell: AtomicI64, value: i64) -> bool {
    ||| call_ensures(AtomicI64::load, (&cell, Ordering::Acquire), value)
    ||| call_ensures(AtomicI64::load, (&cell, Ordering::Relaxed), value)
}

/// This was stored in the cell.
pub open spec fn put_i64(cell: AtomicI64, value: i64) -> bool {
    ||| call_ensures(AtomicI64::store, (&cell, value, Ordering::Release), ())
    ||| call_ensures(AtomicI64::store, (&cell, value, Ordering::Relaxed), ())
}

/// The cell was made with this.
pub open spec fn made_i64(cell: AtomicI64, value: i64) -> bool {
    call_ensures(AtomicI64::new, (value,), cell)
}

/// A load of the cell gave this.
pub open spec fn got_u32(cell: AtomicU32, value: u32) -> bool {
    ||| call_ensures(AtomicU32::load, (&cell, Ordering::Acquire), value)
    ||| call_ensures(AtomicU32::load, (&cell, Ordering::Relaxed), value)
}

/// This was stored in the cell.
pub open spec fn put_u32(cell: AtomicU32, value: u32) -> bool {
    ||| call_ensures(AtomicU32::store, (&cell, value, Ordering::Release), ())
    ||| call_ensures(AtomicU32::store, (&cell, value, Ordering::Relaxed), ())
}

/// The cell was made with this.
pub open spec fn made_u32(cell: AtomicU32, value: u32) -> bool {
    call_ensures(AtomicU32::new, (value,), cell)
}

/// A load of the cell gave this.
pub open spec fn got_u8(cell: AtomicU8, value: u8) -> bool {
    ||| call_ensures(AtomicU8::load, (&cell, Ordering::Acquire), value)
    ||| call_ensures(AtomicU8::load, (&cell, Ordering::Relaxed), value)
}

/// This was stored in the cell.
pub open spec fn put_u8(cell: AtomicU8, value: u8) -> bool {
    ||| call_ensures(AtomicU8::store, (&cell, value, Ordering::Release), ())
    ||| call_ensures(AtomicU8::store, (&cell, value, Ordering::Relaxed), ())
}

/// The cell was made with this.
pub open spec fn made_u8(cell: AtomicU8, value: u8) -> bool {
    call_ensures(AtomicU8::new, (value,), cell)
}

/// A load of the cell gave this.
pub open spec fn got_usize(cell: AtomicUsize, value: usize) -> bool {
    ||| call_ensures(AtomicUsize::load, (&cell, Ordering::Acquire), value)
    ||| call_ensures(AtomicUsize::load, (&cell, Ordering::Relaxed), value)
}

/// This was stored in the cell.
pub open spec fn put_usize(cell: AtomicUsize, value: usize) -> bool {
    ||| call_ensures(AtomicUsize::store, (&cell, value, Ordering::Release), ())
    ||| call_ensures(AtomicUsize::store, (&cell, value, Ordering::Relaxed), ())
}

/// The cell was made with this.
pub open spec fn made_usize(cell: AtomicUsize, value: usize) -> bool {
    call_ensures(AtomicUsize::new, (value,), cell)
}

/// A load of the cell gave this.
pub open spec fn got_i32(cell: AtomicI32, value: i32) -> bool {
    ||| call_ensures(AtomicI32::load, (&cell, Ordering::Acquire), value)
    ||| call_ensures(AtomicI32::load, (&cell, Ordering::Relaxed), value)
}

/// This was stored in the cell.
pub open spec fn put_i32(cell: AtomicI32, value: i32) -> bool {
    ||| call_ensures(AtomicI32::store, (&cell, value, Ordering::Release), ())
    ||| call_ensures(AtomicI32::store, (&cell, value, Ordering::Relaxed), ())
}

/// The cell was made with this.
pub open spec fn made_i32(cell: AtomicI32, value: i32) -> bool {
    call_ensures(AtomicI32::new, (value,), cell)
}

/// A load of the cell gave this.
pub open spec fn got_bool(cell: AtomicBool, value: bool) -> bool {
    ||| call_ensures(AtomicBool::load, (&cell, Ordering::Acquire), value)
    ||| call_ensures(AtomicBool::load, (&cell, Ordering::Relaxed), value)
}

/// This was stored in the cell.
pub open spec fn put_bool(cell: AtomicBool, value: bool) -> bool {
    ||| call_ensures(AtomicBool::store, (&cell, value, Ordering::Release), ())
    ||| call_ensures(AtomicBool::store, (&cell, value, Ordering::Relaxed), ())
}

/// The cell was made with this.
pub open spec fn made_bool(cell: AtomicBool, value: bool) -> bool {
    call_ensures(AtomicBool::new, (value,), cell)
}

/// A reading of what a cell guards was begun with this: an acquiring load.
pub open spec fn began_reading(cell: AtomicU64, value: u64) -> bool {
    call_ensures(AtomicU64::load, (&cell, Ordering::Acquire), value)
}

/// A reading of what a cell guards was ended with this: a load behind an acquiring fence.
pub open spec fn ended_reading(cell: AtomicU64, value: u64) -> bool {
    &&& call_ensures(std::sync::atomic::fence, (Ordering::Acquire,), ())
    &&& call_ensures(AtomicU64::load, (&cell, Ordering::Relaxed), value)
}

/// A write of what a cell guards was begun with this: a store before a releasing fence.
pub open spec fn began_writing(cell: AtomicU64, value: u64) -> bool {
    &&& call_ensures(AtomicU64::store, (&cell, value, Ordering::Relaxed), ())
    &&& call_ensures(std::sync::atomic::fence, (Ordering::Release,), ())
}

/// A write of what a cell guards was ended with this: a releasing store.
pub open spec fn ended_writing(cell: AtomicU64, value: u64) -> bool {
    call_ensures(AtomicU64::store, (&cell, value, Ordering::Release), ())
}

/// So much was added to the cell.
pub open spec fn added(cell: AtomicU64, more: u64) -> bool {
    exists|before: u64| #[trigger] added_to(cell, more, before)
}

/// So much was added to the cell, which held this before.
pub open spec fn added_to(cell: AtomicU64, more: u64, before: u64) -> bool {
    ||| call_ensures(AtomicU64::fetch_add, (&cell, more, Ordering::Release), before)
    ||| call_ensures(AtomicU64::fetch_add, (&cell, more, Ordering::AcqRel), before)
    ||| call_ensures(AtomicU64::fetch_add, (&cell, more, Ordering::Relaxed), before)
}

/// Bits were raised in the cell, which held this before.
pub open spec fn raised_bits(cell: AtomicU64, mask: u64, before: u64) -> bool {
    call_ensures(AtomicU64::fetch_or, (&cell, mask, Ordering::AcqRel), before)
}

/// Only these bits were kept in the cell.
pub open spec fn kept_bits(cell: AtomicU64, mask: u64) -> bool {
    exists|before: u64| #[trigger]
        call_ensures(AtomicU64::fetch_and, (&cell, mask, Ordering::AcqRel), before)
}

/// One attempt to replace a word in the cell by another, and whether that succeeded.
pub open spec fn replaced(cell: AtomicU64, from: u64, to: u64, done: bool) -> bool {
    exists|result: Result<u64, u64>| #[trigger]
        swapped(cell, from, to, result) && done == result is Ok
}

pub open spec fn swapped(cell: AtomicU64, from: u64, to: u64, result: Result<u64, u64>) -> bool {
    ||| call_ensures(
        AtomicU64::compare_exchange,
        (&cell, from, to, Ordering::AcqRel, Ordering::Acquire),
        result,
    )
    ||| call_ensures(
        AtomicU64::compare_exchange,
        (&cell, from, to, Ordering::Release, Ordering::Acquire),
        result,
    )
}

/// One attempt to raise a flag, and whether that succeeded.
pub open spec fn taken(flag: AtomicBool, done: bool) -> bool {
    exists|result: Result<bool, bool>| #[trigger]
        call_ensures(
            AtomicBool::compare_exchange,
            (&flag, false, true, Ordering::Acquire, Ordering::Relaxed),
            result,
        ) && done == result is Ok
}

/// The word in the cell was moved as a step says, as often as it took.
pub(crate) open spec fn updated<F: Fn(u64) -> Option<u64>>(
    cell: AtomicU64,
    step: F,
    result: Result<u64, u64>,
) -> bool {
    call_ensures(update::<F>, (&cell, step), result)
}

/// `AtomicU64::fetch_update`, which acquires and releases. It calls `step` on the
/// word it finds, and again while other threads interfere. Claimed of it is what
/// its documentation says of the result: `Ok` of the replaced word, for which
/// `step` gave a new one, or `Err` of the word for which `step` gave none.
#[verifier::external_body]
pub(crate) fn update<F: Fn(u64) -> Option<u64>>(word: &AtomicU64, step: F) -> (result: Result<
    u64,
    u64,
>)
    requires
        forall|found: u64| call_requires(step, (found,)),
    ensures
        match result {
            Ok(found) => exists|next: u64| call_ensures(step, (found,), Some(next)),
            Err(found) => call_ensures(step, (found,), None),
        },
{
    word.fetch_update(Ordering::AcqRel, Ordering::Acquire, step)
}

/// Who may be `Plain`. Nothing outside of this file can be.
trait Sealed {

}

/// Values that hold nothing which is there for proofs only. What a proof knows of
/// such a value, running code could compute. A ring carries no others.
#[allow(private_bounds)]
pub trait Plain: Sealed {

}

impl Sealed for Window {

}

impl Plain for Window {

}

impl Sealed for DeviceEvent {

}

impl Plain for DeviceEvent {

}

impl Sealed for PreparedSource {

}

impl Plain for PreparedSource {

}

impl Sealed for Span {

}

impl Plain for Span {

}

impl Sealed for Observation {

}

impl Plain for Observation {

}

impl Sealed for ValidatedObservation {

}

impl Plain for ValidatedObservation {

}

/// `AtomicBool::store` of `false`, as a release. Claimed of it is only that it
/// returns: the store panics for other orderings than this one.
#[verifier::external_body]
pub(crate) fn lower(flag: &AtomicBool)
    opens_invariants none
    no_unwind
{
    flag.store(false, Ordering::Release);
}

/// The flag was lowered.
pub(crate) open spec fn lowered(flag: AtomicBool) -> bool {
    call_ensures(lower, (&flag,), ())
}

/// `AtomicU64::fetch_and`, as a release. Claimed of it is only that it returns.
#[verifier::external_body]
pub(crate) fn keep(word: &AtomicU64, mask: u64)
    opens_invariants none
    no_unwind
{
    word.fetch_and(mask, Ordering::Release);
}

} // verus!
