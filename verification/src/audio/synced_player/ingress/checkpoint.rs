//! The actual device position, published within a callback and read between
//! callbacks.
use super::{CallbackGuard, ControlGate, GateView, Observation};
use crate::audio::synced_player::shared::{
    got_bool, got_i64, got_u64, got_usize, made_bool, made_u64, put_bool, put_i64, put_u64,
    put_usize,
};
use std::sync::atomic::{AtomicBool, AtomicI64, AtomicU64, AtomicUsize, Ordering};
use vstd::prelude::*;

verus! {

/// Where the device is in the source: everything up to `retired_through` is
/// behind it, and it is at sample `index` of `current`, unless that is 0.
#[derive(Clone, Copy, Debug, PartialEq, Eq, Structural)]
pub struct SourcePosition {
    pub retired_through: u64,
    pub current: u64,
    pub index: usize,
    pub cursor_us: i64,
    pub cursor_remainder: i64,
}

/// A coherent reading: the observation that it belongs to, the source frames
/// consumed so far, and the position.
#[derive(Debug)]
pub struct Snapshot<'a> {
    pub view: Observation<'a>,
    pub source_frames: u64,
    pub position: SourcePosition,
}

/// The cells that the device writes while its callback is active. The owner
/// writes only `invalid_before`: positions from earlier versions do not count.
#[derive(Debug)]
pub struct PublishedCheckpoint {
    valid: AtomicBool,
    epoch: AtomicU64,
    invalid_before: AtomicU64,
    retired_through: AtomicU64,
    index: AtomicUsize,
    cursor_us: AtomicI64,
    cursor_remainder: AtomicI64,
}

/// Whether a position counts: one was published, and not for a version that has
/// been invalidated since.
pub open spec fn counts(valid: bool, epoch: u64, invalid_before: u64) -> bool {
    valid && epoch >= invalid_before
}

pub fn position_counts(valid: bool, epoch: u64, invalid_before: u64) -> (usable: bool)
    ensures
        usable == counts(valid, epoch, invalid_before),
{
    valid && epoch >= invalid_before
}

/// A position published in one version counts until a later version invalidates
/// it: a replacement, which invalidates nothing, keeps it, and a clear or a new
/// timeline, which invalidates everything before the version it commits, ends it.
pub proof fn a_commit_ends_earlier_positions(published: u64, committed: u64, invalid_before: u64)
    requires
        published < committed,
        invalid_before <= published,
    ensures
        counts(true, published, invalid_before),
        !counts(true, published, committed),
        forall|fresh: u64| fresh >= committed ==> #[trigger] counts(true, fresh, committed),
{
}

/// Whether a reading counts, from what was found around it: no callback was active, a
/// position counted before and was valid after, and the observation still stood.
pub open spec fn coherent(active: bool, counted: bool, still: bool, stood: bool) -> bool {
    !active && counted && still && stood
}

pub fn is_coherent(active: bool, counted: bool, still: bool, stood: bool) -> (whole: bool)
    ensures
        whole == coherent(active, counted, still, stood),
{
    !active && counted && still && stood
}

/// What a reading finds: whether a position counted, the position and the frames consumed,
/// and whether the position was still valid and the observation still stood afterwards.
pub struct ReadFound {
    pub counted: bool,
    pub position: SourcePosition,
    pub source_frames: u64,
    pub still: bool,
    pub stood: bool,
}

/// What a reading gives under what was seen of the control gate.
pub open spec fn reading_gives(seen: GateView, found: ReadFound) -> Option<(SourcePosition, u64)> {
    if coherent(seen.says().active, found.counted, found.still, found.stood) {
        Some((found.position, found.source_frames))
    } else {
        None
    }
}

/// What a snapshot says.
pub open spec fn read_in(snapshot: Option<Snapshot<'_>>) -> Option<(SourcePosition, u64)> {
    match snapshot {
        Some(s) => Some((s.position, s.source_frames)),
        None => None,
    }
}

impl PublishedCheckpoint {
    /// Nothing is published yet.
    pub closed spec fn is_fresh(&self) -> bool {
        &&& made_bool(self.valid, false)
        &&& made_u64(self.epoch, 0)
        &&& made_u64(self.invalid_before, 0)
    }

    /// A position was written, for a version, and made valid.
    pub closed spec fn writes(&self, position: SourcePosition, epoch: u64) -> bool {
        &&& put_u64(self.retired_through, position.retired_through)
        &&& put_usize(self.index, position.index)
        &&& put_i64(self.cursor_us, position.cursor_us)
        &&& put_i64(self.cursor_remainder, position.cursor_remainder)
        &&& put_u64(self.epoch, epoch)
        &&& put_bool(self.valid, true)
    }

    /// The parts of this position were read, but for the current source, which the control
    /// gate holds.
    pub closed spec fn reads(&self, position: SourcePosition) -> bool {
        &&& got_u64(self.retired_through, position.retired_through)
        &&& got_usize(self.index, position.index)
        &&& got_i64(self.cursor_us, position.cursor_us)
        &&& got_i64(self.cursor_remainder, position.cursor_remainder)
    }

    /// Whether a position counts was read from its three cells.
    pub closed spec fn reads_validity(&self, counted: bool) -> bool {
        exists|valid: bool, epoch: u64, invalid_before: u64| #[trigger]
            got_bool(self.valid, valid) && #[trigger] got_u64(self.epoch, epoch)
                && #[trigger] got_u64(self.invalid_before, invalid_before) && counted == counts(
                valid,
                epoch,
                invalid_before,
            )
    }

    /// Whether a position is valid was read once more.
    pub closed spec fn reads_flag(&self, valid: bool) -> bool {
        call_ensures(PublishedCheckpoint::valid_again, (self,), valid)
    }

    /// Positions from before this version were invalidated.
    pub closed spec fn invalidates(&self, epoch: u64) -> bool {
        put_u64(self.invalid_before, epoch)
    }

    /// A reading under an observation found this. Nothing is read under an active callback,
    /// and only the validity where no position counts.
    pub open spec fn finds(
        &self,
        gate: ControlGate,
        seen: GateView,
        progress: AtomicU64,
        found: ReadFound,
    ) -> bool {
        !seen.says().active ==> {
            &&& self.reads_validity(found.counted)
            &&& found.counted ==> {
                &&& self.reads(found.position)
                &&& found.position.current == seen.current
                &&& got_u64(progress, found.source_frames)
                &&& self.reads_flag(found.still)
                &&& gate.validates(seen, found.stood)
            }
        }
    }

    /// A reading under an observation was tried, and this came of it.
    pub open spec fn is_read(
        &self,
        gate: ControlGate,
        seen: GateView,
        progress: AtomicU64,
        read: Option<(SourcePosition, u64)>,
    ) -> bool {
        exists|found: ReadFound| #[trigger]
            self.finds(gate, seen, progress, found) && read == reading_gives(seen, found)
    }

    pub fn new() -> (checkpoint: PublishedCheckpoint)
        ensures
            checkpoint.is_fresh(),
    {
        PublishedCheckpoint {
            valid: AtomicBool::new(false),
            epoch: AtomicU64::new(0),
            invalid_before: AtomicU64::new(0),
            retired_through: AtomicU64::new(0),
            index: AtomicUsize::new(0),
            cursor_us: AtomicI64::new(0),
            cursor_remainder: AtomicI64::new(0),
        }
    }

    /// Publish a position, for the version that the callback sees.
    pub fn publish(&self, callback: &CallbackGuard<'_>, position: SourcePosition)
        ensures
            callback.of().makes_current(position.current),
            exists|view: GateView| #[trigger]
                callback.of().shows(view) && self.writes(position, view.says().epoch),
    {
        callback.publish_current(position.current);
        self.retired_through.store(position.retired_through, Ordering::Relaxed);
        self.index.store(position.index, Ordering::Relaxed);
        self.cursor_us.store(position.cursor_us, Ordering::Relaxed);
        self.cursor_remainder.store(position.cursor_remainder, Ordering::Relaxed);
        let view = callback.view();
        self.epoch.store(view.epoch(), Ordering::Relaxed);
        self.valid.store(true, Ordering::Release);
        assert(callback.of().shows(view) && self.writes(position, view.says().epoch));
    }

    /// Whether a position is valid, once it was read.
    fn valid_again(&self) -> (valid: bool)
        ensures
            got_bool(self.valid, valid),
    {
        self.valid.load(Ordering::Acquire)
    }

    pub fn is_valid(&self) -> (counted: bool)
        ensures
            self.reads_validity(counted),
    {
        let valid: bool = self.valid.load(Ordering::Acquire);
        let epoch: u64 = self.epoch.load(Ordering::Relaxed);
        let invalid_before: u64 = self.invalid_before.load(Ordering::Acquire);
        assert(got_bool(self.valid, valid) && got_u64(self.epoch, epoch) && got_u64(
            self.invalid_before,
            invalid_before,
        ));
        position_counts(valid, epoch, invalid_before)
    }

    /// Observe the control gate and read. `None` where the control gate cannot be observed, where
    /// no position counts, or where a callback came in between.
    pub fn read<'a>(&self, gate: &'a ControlGate, progress: &AtomicU64) -> (snapshot: Option<
        Snapshot<'a>,
    >)
        ensures
            snapshot matches Some(s) ==> s.view.of() == gate && s.position.current
                == s.view.seen().current && !s.view.seen().says().active
                && !s.view.seen().says().dirty,
            exists|seen: Option<GateView>| #[trigger]
                gate.observes(seen) && match seen {
                    Some(view) => self.is_read(*gate, view, *progress, read_in(snapshot)),
                    None => snapshot is None,
                },
    {
        match gate.observe() {
            Some(view) => {
                assert(gate.observes(Some(view.seen())));
                self.read_observed(view, progress)
            },
            None => {
                assert(gate.observes(None));
                None
            },
        }
    }

    /// Read under an observation. The answer is coherent because the observation
    /// is validated after the last cell was read.
    pub fn read_observed<'a>(&self, view: Observation<'a>, progress: &AtomicU64) -> (snapshot:
        Option<Snapshot<'a>>)
        ensures
            view.seen().says().active ==> snapshot is None,
            snapshot matches Some(s) ==> s.view == view && s.position.current
                == view.seen().current,
            self.is_read(*view.of(), view.seen(), *progress, read_in(snapshot)),
    {
        let gate = view.gate();
        let ghost seen = view.seen();
        let active: bool = view.view().callback_active();
        let ghost mut found = ReadFound {
            counted: false,
            position: arbitrary(),
            source_frames: 0,
            still: false,
            stood: false,
        };
        if active {
            assert(self.finds(*gate, seen, *progress, found));
            return None;
        }
        if !self.is_valid() {
            assert(self.finds(*gate, seen, *progress, found));
            return None;
        }
        let current: u64 = view.view().current();
        let source_frames: u64 = progress.load(Ordering::Acquire);
        let position = SourcePosition {
            retired_through: self.retired_through.load(Ordering::Relaxed),
            current,
            index: self.index.load(Ordering::Relaxed),
            cursor_us: self.cursor_us.load(Ordering::Relaxed),
            cursor_remainder: self.cursor_remainder.load(Ordering::Relaxed),
        };
        let still: bool = self.valid_again();
        let stood: bool = gate.validate(&view);
        proof {
            found = ReadFound { counted: true, position, source_frames, still, stood };
            assert(self.finds(*gate, seen, *progress, found));
        }
        if is_coherent(active, true, still, stood) {
            Some(Snapshot { view, source_frames, position })
        } else {
            None
        }
    }

    /// Positions from before this version no longer count. Called under the
    /// owner's serialization, after a clear or a new timeline has been committed
    /// and before new windows are published.
    pub fn invalidate_before(&self, epoch: u64)
        ensures
            self.invalidates(epoch),
    {
        self.invalid_before.store(epoch, Ordering::Release);
    }
}

} // verus!
