use vstd::prelude::*;

use crate::location::{avalanche_size, is_inert};
use crate::pile::{lemma_resident_total_nonneg, resident_total, Sandpile};

verus! {

/// Every grain dropped is resident in some cell, escaped, or stranded; so in a
/// stable pile where none escaped and no avalanche ran out of passes, the grains
/// resident over all cells are exactly the grains dropped. `Sandpile::new`
/// establishes `wf` and `dropGrain` preserves it.
pub proof fn lemma_conservation(pile: Sandpile)
    requires
        pile.wf(),
    ensures
        resident_total(pile.lattice.cells@) + pile.escaped + pile.stranded == pile.count(),
        pile.escaped == 0 && pile.stranded == 0 ==> resident_total(pile.lattice.cells@) == pile.count(),
{
}

/// One deposit that loses no grain and completes adds exactly one resident
/// grain: applied to the piles before and after `dropGrain`, whose contract
/// gives every requirement here when the report shows no escape and is
/// complete.
pub proof fn lemma_drop_adds_one(before: Sandpile, after: Sandpile)
    requires
        before.wf(),
        after.wf(),
        after.count() == before.count() + 1,
        after.escaped == before.escaped,
        after.stranded == before.stranded,
    ensures
        resident_total(after.lattice.cells@) == resident_total(before.lattice.cells@) + 1,
{
}

/// In a stable pile every cell holds at most its capacity, and a cell of
/// capacity 0 holds nothing.
pub proof fn lemma_capacity(pile: Sandpile, x: int, y: int, z: int)
    requires
        pile.wf(),
        pile.lattice.in_bounds(x, y, z),
    ensures
        pile.lattice.cell(x, y, z).grainIds@.len() <= pile.lattice.cell(x, y, z).capacity,
        pile.lattice.cell(x, y, z).capacity == 0 ==> pile.lattice.cell(x, y, z).grainIds@.len() == 0,
{
    assert(pile.lattice.placed(x, y, z));
    let i = pile.lattice.index_of(x, y, z);
    assert(pile.lattice.cells@[i].grainIds@.len() <= pile.lattice.cells@[i].capacity);
}

/// A cell outside the pile's footprint is empty space: capacity 0, resilience 0,
/// and no resident grain, in every stable pile.
pub proof fn lemma_outside_footprint_inert(pile: Sandpile, x: int, y: int, z: int)
    requires
        pile.wf(),
        pile.lattice.in_bounds(x, y, z),
        !pile.lattice.in_footprint(x, y, z),
    ensures
        is_inert(pile.lattice.cell(x, y, z)),
        pile.lattice.cell(x, y, z).grainIds@.len() == 0,
{
    lemma_capacity(pile, x, y, z);
}

/// The number of grains a toppling cell sheds is never negative and never
/// exceeds what the cell holds.
pub proof fn lemma_avalanche_size_bounded(size_draw: i64, resident: int)
    requires
        resident >= 0,
    ensures
        0 <= avalanche_size(size_draw, resident) <= resident,
{
}

/// No count in a pile is negative: resident grains, escaped and stranded grains.
pub proof fn lemma_no_negative_counts(pile: Sandpile)
    requires
        pile.wf(),
    ensures
        resident_total(pile.lattice.cells@) >= 0,
        pile.escaped <= pile.count(),
        pile.stranded <= pile.count(),
{
    lemma_resident_total_nonneg(pile.lattice.cells@);
}

} // verus!
