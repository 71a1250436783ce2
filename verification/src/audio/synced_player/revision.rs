//! Publications that readers check by a revision: odd while the writer is at
//! work, even otherwise.
use std::sync::atomic::Ordering;
use vstd::prelude::*;

verus! {

/// `std::sync::atomic::fence`, which panics for a relaxed ordering. Nothing else
/// is claimed of it.
pub assume_specification[ std::sync::atomic::fence ](order: Ordering)
    requires
        !(order is Relaxed),
;

pub open spec fn next_revisions(revision: u64) -> Option<(u64, u64)> {
    if revision % 2 == 0 && revision + 2 <= u64::MAX {
        Some(((revision + 1) as u64, (revision + 2) as u64))
    } else {
        None
    }
}

/// The two revisions of one publication: while it is written, and once it stands.
/// `None` where the revisions are used up, or where a write is already under way.
pub fn revisions_after(revision: u64) -> (next: Option<(u64, u64)>)
    ensures
        next == next_revisions(revision),
{
    if revision % 2 == 0 && revision <= 0xFFFF_FFFF_FFFF_FFFD {
        Some((revision + 1, revision + 2))
    } else {
        None
    }
}

pub open spec fn stands(revision: u64) -> bool {
    revision != 0 && revision % 2 == 0
}

/// Whether a revision stands for something published.
pub fn is_published(revision: u64) -> (published: bool)
    ensures
        published == stands(revision),
{
    revision != 0 && revision % 2 == 0
}

/// The memory of one publication: its revision, and its cells.
pub struct Published<C> {
    pub revision: u64,
    pub cells: C,
}

/// One operation of the writer.
pub enum Write<C> {
    /// The revision turns odd.
    Open,
    /// Cells are written.
    Fill { cells: C },
    /// The revision turns even.
    Close,
}

pub open spec fn writes_to<C>(a: Published<C>, write: Write<C>, b: Published<C>) -> bool {
    match write {
        Write::Open => a.revision % 2 == 0 && a.revision + 2 <= u64::MAX && b == (Published {
            revision: (a.revision + 1) as u64,
            ..a
        }),
        Write::Fill { cells } => a.revision % 2 == 1 && b == (Published { cells, ..a }),
        Write::Close => a.revision % 2 == 1 && a.revision < u64::MAX && b == (Published {
            revision: (a.revision + 1) as u64,
            ..a
        }),
    }
}

pub open spec fn writes<C>(states: Seq<Published<C>>, steps: Seq<Write<C>>) -> bool {
    &&& states.len() == steps.len() + 1
    &&& forall|i: int|
        0 <= i < steps.len() ==> #[trigger] writes_to(states[i], steps[i], states[i + 1])
}

proof fn lemma_revisions_grow<C>(
    states: Seq<Published<C>>,
    steps: Seq<Write<C>>,
    from: int,
    to: int,
)
    requires
        writes(states, steps),
        0 <= from <= to < states.len(),
    ensures
        states[from].revision <= states[to].revision,
        states[from].revision == states[to].revision && states[from].revision % 2 == 0
            ==> states[from].cells == states[to].cells,
    decreases to - from,
{
    if from < to {
        let last = to - 1;
        lemma_revisions_grow(states, steps, from, last);
        assert(writes_to(states[last], steps[last], states[last + 1]));
    }
}

/// A read gives back what was last written: at every moment after the cells were
/// filled and before they are filled again, they hold what they were filled with.
pub proof fn reads_find_the_last_fill<C>(
    states: Seq<Published<C>>,
    steps: Seq<Write<C>>,
    fill: int,
    read: int,
)
    requires
        writes(states, steps),
        0 <= fill < read < states.len(),
        steps[fill] is Fill,
        forall|i: int| fill < i < read ==> !(#[trigger] steps[i] is Fill),
    ensures
        steps[fill] matches Write::Fill { cells } && states[read].cells == cells,
    decreases read - fill,
{
    let last = read - 1;
    assert(writes_to(states[last], steps[last], states[last + 1]));
    if fill < last {
        reads_find_the_last_fill(states, steps, fill, last);
    }
}

/// A read that finds the same even revision before and after is whole: whatever
/// it read of the cells in between belongs to one publication.
pub proof fn an_unchanged_revision_is_one_publication<C>(
    states: Seq<Published<C>>,
    steps: Seq<Write<C>>,
    before: int,
    read: int,
    after: int,
)
    requires
        writes(states, steps),
        0 <= before <= read <= after < states.len(),
        states[before].revision % 2 == 0,
        states[after].revision == states[before].revision,
    ensures
        states[read].cells == states[before].cells,
{
    lemma_revisions_grow(states, steps, before, read);
    lemma_revisions_grow(states, steps, read, after);
}

} // verus!
