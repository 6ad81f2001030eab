use vstd::arithmetic::div_mod::lemma_fundamental_div_mod_converse;
use vstd::prelude::*;

use crate::avalanche::{contains_id, copy_ids, joined, lemma_push_contains, relocated, Avalanche};
use crate::constants::ALPHA_UNIT;
use crate::draws::{sat_add, Variates};
use crate::error::SandpileError;
use crate::grain::{fall_step, landing_coord, roll_move, Grain, GrainRegistry, GrainState, RollMove};
use crate::location::{same_frame, sheds, topples, Lattice, Location};

verus! {

/// The engine's state: the lattice, the registry of every grain dropped, and
/// the grains that left the pile.
pub struct Sandpile {
    pub lattice: Lattice,
    pub registry: GrainRegistry,
    /// Grains that fell out of the lattice's accessible region.
    pub escaped: usize,
    /// Grains still in motion when an avalanche ran out of passes.
    pub stranded: usize,
}

/// Grains resident over all cells.
pub open spec fn resident_total(cells: Seq<Location>) -> int
    decreases cells.len(),
{
    if cells.len() == 0 {
        0
    } else {
        resident_total(cells.drop_last()) + cells.last().grainIds@.len()
    }
}

pub proof fn lemma_resident_total_nonneg(cells: Seq<Location>)
    ensures
        resident_total(cells) >= 0,
    decreases cells.len(),
{
    if cells.len() > 0 {
        lemma_resident_total_nonneg(cells.drop_last());
    }
}

pub proof fn lemma_resident_total_empty(cells: Seq<Location>)
    requires
        forall|i: int| 0 <= i < cells.len() ==> (#[trigger] cells[i]).grainIds@.len() == 0,
    ensures
        resident_total(cells) == 0,
    decreases cells.len(),
{
    if cells.len() > 0 {
        assert(cells.last() == cells[cells.len() - 1]);
        lemma_resident_total_empty(cells.drop_last());
    }
}

pub proof fn lemma_resident_total_update(cells: Seq<Location>, i: int, c: Location)
    requires
        0 <= i < cells.len(),
    ensures
        resident_total(cells.update(i, c)) == resident_total(cells) - cells[i].grainIds@.len()
            + c.grainIds@.len(),
    decreases cells.len(),
{
    if i == cells.len() - 1 {
        assert(cells.update(i, c).drop_last() =~= cells.drop_last());
    } else {
        lemma_resident_total_update(cells.drop_last(), i, c);
        assert(cells.update(i, c).drop_last() =~= cells.drop_last().update(i, c));
    }
}

impl Sandpile {
    pub open spec fn count(&self) -> int {
        self.registry.grains@.len() as int
    }

    pub open spec fn grain(&self, g: u32) -> Grain {
        self.registry.grains@[g as int]
    }

    /// Grain `g` exists and stands inside the lattice.
    pub open spec fn placed_grain(&self, g: u32) -> bool {
        &&& g < self.count()
        &&& self.lattice.in_bounds(self.grain(g).x as int, self.grain(g).y as int, self.grain(g).z as int)
    }

    /// Index of the cell at grain `g`'s position.
    pub open spec fn home(&self, g: u32) -> int {
        self.lattice.index_of(self.grain(g).x as int, self.grain(g).y as int, self.grain(g).z as int)
    }

    pub open spec fn resident_ok(&self, g: u32, i: int) -> bool {
        &&& self.placed_grain(g)
        &&& self.grain(g).state == GrainState::Stationary
        &&& self.home(g) == i
    }

    /// Every resident is a stationary grain positioned at its cell, held once.
    pub open spec fn residents_ok(&self) -> bool {
        &&& forall|i: int, j: int|
            0 <= i < self.lattice.cells@.len() && 0 <= j < self.lattice.cells@[i].grainIds@.len()
                ==> self.resident_ok(#[trigger] self.lattice.cells@[i].grainIds@[j], i)
        &&& forall|i: int|
            0 <= i < self.lattice.cells@.len() ==> (#[trigger] self.lattice.cells@[i]).grainIds@.no_duplicates()
    }

    /// A grain in motion: not stationary, inside the lattice.
    pub open spec fn moving_ok(&self, g: u32) -> bool {
        &&& self.placed_grain(g)
        &&& self.grain(g).state != GrainState::Stationary
    }

    /// A grain just shed by a cell and not yet set in motion.
    pub open spec fn loose_ok(&self, g: u32) -> bool {
        &&& self.placed_grain(g)
        &&& self.grain(g).state == GrainState::Stationary
        &&& !self.lattice.cells@[self.home(g)].grainIds@.contains(g)
    }

    /// Each grain dropped is in exactly one place: resident in a cell, in
    /// motion (`moving`), shed and about to move (`loose`), escaped, or stranded.
    pub open spec fn inv(&self, moving: Seq<u32>, loose: Seq<u32>) -> bool {
        &&& self.lattice.wf()
        &&& self.registry.wf()
        &&& self.residents_ok()
        &&& forall|g: u32| #[trigger] moving.contains(g) ==> self.moving_ok(g)
        &&& moving.no_duplicates()
        &&& forall|k: int| 0 <= k < loose.len() ==> self.loose_ok(#[trigger] loose[k])
        &&& loose.no_duplicates()
        &&& resident_total(self.lattice.cells@) + moving.len() + loose.len() + self.escaped + self.stranded
            == self.count()
    }

    /// A stable pile: no grain in motion.
    pub open spec fn wf(&self) -> bool {
        self.inv(Seq::empty(), Seq::empty())
    }

    /// Same extents, same cells with the same thresholds, same grains recorded.
    pub open spec fn keeps_frame(&self, other: Sandpile) -> bool {
        &&& self.same_cells(other)
        &&& self.count() == other.count()
    }

    /// Same extents and the same cells with the same thresholds.
    pub open spec fn same_cells(&self, other: Sandpile) -> bool {
        &&& self.lattice.x_size == other.lattice.x_size
        &&& self.lattice.y_size == other.lattice.y_size
        &&& self.lattice.z_size == other.lattice.z_size
        &&& self.lattice.cells@.len() == other.lattice.cells@.len()
        &&& forall|i: int|
            0 <= i < self.lattice.cells@.len() ==> same_frame(
                #[trigger] self.lattice.cells@[i],
                other.lattice.cells@[i],
            )
    }

    /// A grain that is not stationary, or stationary but not held at its own
    /// cell, is held by no cell.
    pub proof fn lemma_absent(&self, g: u32)
        requires
            self.residents_ok(),
            g < self.count(),
            self.grain(g).state != GrainState::Stationary || !self.lattice.cells@[self.home(
                g,
            )].grainIds@.contains(g),
        ensures
            forall|i: int| 0 <= i < self.lattice.cells@.len() ==> !(#[trigger] self.lattice.cells@[i]).grainIds@.contains(g),
    {
        assert forall|i: int| 0 <= i < self.lattice.cells@.len() implies !(#[trigger] self.lattice.cells@[i]).grainIds@.contains(g) by {
            if self.lattice.cells@[i].grainIds@.contains(g) {
                let j = choose|j: int| 0 <= j < self.lattice.cells@[i].grainIds@.len() && self.lattice.cells@[i].grainIds@[j] == g;
                assert(self.resident_ok(self.lattice.cells@[i].grainIds@[j], i));
            }
        }
    }

    /// Changing the record of a grain that no cell holds keeps the residents valid.
    pub proof fn lemma_residents_after_record(old_pile: Sandpile, new_pile: Sandpile, g: u32)
        requires
            old_pile.residents_ok(),
            new_pile.lattice == old_pile.lattice,
            new_pile.registry.grains@.len() == old_pile.registry.grains@.len(),
            forall|x: u32| x < old_pile.count() && x != g ==> #[trigger] new_pile.grain(x) == old_pile.grain(x),
            forall|i: int| 0 <= i < old_pile.lattice.cells@.len() ==> !(#[trigger] old_pile.lattice.cells@[i]).grainIds@.contains(g),
        ensures
            new_pile.residents_ok(),
    {
        assert forall|i: int, j: int|
            0 <= i < new_pile.lattice.cells@.len() && 0 <= j < new_pile.lattice.cells@[i].grainIds@.len()
                implies new_pile.resident_ok(#[trigger] new_pile.lattice.cells@[i].grainIds@[j], i) by {
            let r = old_pile.lattice.cells@[i].grainIds@[j];
            assert(old_pile.resident_ok(r, i));
            assert(old_pile.lattice.cells@[i].grainIds@.contains(r));
            assert(new_pile.grain(r) == old_pile.grain(r));
        }
    }
}

/// A lattice that changed in one cell only, keeping that cell's frame and
/// capacity bound, stays well formed.
pub proof fn lemma_lattice_one_cell(old_l: Lattice, new_l: Lattice, i: int)
    requires
        old_l.wf(),
        new_l.x_size == old_l.x_size,
        new_l.y_size == old_l.y_size,
        new_l.z_size == old_l.z_size,
        0 <= i < old_l.cells@.len(),
        new_l.cells@.len() == old_l.cells@.len(),
        forall|k: int| 0 <= k < old_l.cells@.len() && k != i ==> new_l.cells@[k] == old_l.cells@[k],
        same_frame(new_l.cells@[i], old_l.cells@[i]),
        new_l.cells@[i].grainIds@.len() <= new_l.cells@[i].capacity,
    ensures
        new_l.wf(),
{
    assert forall|x: int, y: int, z: int| #[trigger] new_l.in_bounds(x, y, z) implies new_l.placed(x, y, z) by {
        assert(old_l.in_bounds(x, y, z));
    }
    assert forall|k: int| 0 <= k < new_l.cells@.len() implies (#[trigger] new_l.cells@[k]).grainIds@.len()
        <= new_l.cells@[k].capacity by {
        if k != i {
            assert(old_l.cells@[k] == new_l.cells@[k]);
        }
    }
}

/// `same_cells` composes.
pub proof fn lemma_same_cells_trans(a: Sandpile, b: Sandpile, c: Sandpile)
    requires
        b.same_cells(a),
        c.same_cells(b),
    ensures
        c.same_cells(a),
{
    assert forall|i: int| 0 <= i < c.lattice.cells@.len() implies same_frame(
        #[trigger] c.lattice.cells@[i],
        a.lattice.cells@[i],
    ) by {
        assert(same_frame(b.lattice.cells@[i], a.lattice.cells@[i]));
    }
}

/// Cells that agree one by one on their frames make `same_cells`.
pub proof fn lemma_same_cells_settle(a: Sandpile, b: Sandpile)
    requires
        b.lattice.x_size == a.lattice.x_size,
        b.lattice.y_size == a.lattice.y_size,
        b.lattice.z_size == a.lattice.z_size,
        b.lattice.cells@.len() == a.lattice.cells@.len(),
        forall|i: int| 0 <= i < a.lattice.cells@.len() ==> same_frame(b.lattice.cells@[i], a.lattice.cells@[i]),
    ensures
        b.same_cells(a),
{
}

impl Sandpile {
    /// Store a new record for a grain in motion that stays in motion.
    pub(crate) fn record_moving(&mut self, ng: Grain, Ghost(moving): Ghost<Seq<u32>>)
        requires
            old(self).inv(moving, Seq::empty()),
            moving.contains(ng.id),
            ng.state != GrainState::Stationary,
            old(self).lattice.in_bounds(ng.x as int, ng.y as int, ng.z as int),
        ensures
            final(self).inv(moving, Seq::empty()),
            final(self).lattice == old(self).lattice,
            final(self).escaped == old(self).escaped,
            final(self).stranded == old(self).stranded,
            final(self).registry.grains@ == old(self).registry.grains@.update(ng.id as int, ng),
    {
        proof {
            old(self).lemma_absent(ng.id);
        }
        self.registry.grains.set(ng.id as usize, ng);
        proof {
            Sandpile::lemma_residents_after_record(*old(self), *self, ng.id);
            assert forall|g: u32| #[trigger] moving.contains(g) implies self.moving_ok(g) by {
                assert(old(self).moving_ok(g));
            }
        }
    }

    /// The grain reaches the cell at its position. With room the cell keeps it
    /// and it leaves the avalanche; otherwise it rolls on. Returns its energy
    /// before the impact.
    pub(crate) fn absorb(&mut self, av: &mut Avalanche, g: u32) -> (energy: usize)
        requires
            old(self).inv(old(av).grainIds@, Seq::empty()),
            old(av).wf(),
            old(av).grainIds@.contains(g),
        ensures
            final(self).inv(final(av).grainIds@, Seq::empty()),
            final(av).wf(),
            final(self).keeps_frame(*old(self)),
            final(self).escaped == old(self).escaped,
            final(self).stranded == old(self).stranded,
            energy == old(self).grain(g).energy,
            absorbed(*old(self), old(av).grainIds@, *final(self), final(av).grainIds@, g),
            joined(*old(av), *final(av)),
            Lattice::has_room(old(self).lattice.cells@[old(self).home(g)]) ==> {
                &&& final(self).grain(g) == (Grain {
                    energy: 0,
                    state: GrainState::Stationary,
                    ..old(self).grain(g)
                })
                &&& final(self).lattice.cells@[old(self).home(g)].grainIds@
                    == old(self).lattice.cells@[old(self).home(g)].grainIds@.push(g)
                &&& !final(av).grainIds@.contains(g)
            },
            !Lattice::has_room(old(self).lattice.cells@[old(self).home(g)]) ==> {
                &&& final(self).grain(g) == (Grain {
                    energy: if old(self).grain(g).energy > 1 { 1 } else { old(self).grain(g).energy },
                    state: GrainState::Rolling,
                    ..old(self).grain(g)
                })
                &&& final(self).lattice == old(self).lattice
                &&& final(av).grainIds@ == old(av).grainIds@
            },
            final(av).id == old(av).id,
            final(av).involvedIds@ == old(av).involvedIds@,
            final(av).locationIds@ == old(av).locationIds@,
            final(av).totalMovement == old(av).totalMovement,
    {
        let mut grain = self.registry.grains[g as usize];
        let i = self.lattice.index(grain.x, grain.y, grain.z);
        if self.lattice.cells[i].grainIds.len() < self.lattice.cells[i].capacity {
            proof {
                old(self).lemma_absent(g);
            }
            let energy = self.lattice.cells[i].incomingGrain(&mut grain);
            self.registry.grains.set(g as usize, grain);
            av.removeGrain(g);
            proof {
                let cells = self.lattice.cells@;
                let old_cells = old(self).lattice.cells@;
                lemma_lattice_one_cell(old(self).lattice, self.lattice, i as int);
                lemma_resident_total_update(old_cells, i as int, cells[i as int]);
                assert(cells =~= old_cells.update(i as int, cells[i as int]));
                assert forall|a: int, b: int|
                    0 <= a < cells.len() && 0 <= b < cells[a].grainIds@.len() implies self.resident_ok(
                    #[trigger] self.lattice.cells@[a].grainIds@[b],
                    a,
                ) by {
                    let r = cells[a].grainIds@[b];
                    if a == i && b == old_cells[a].grainIds@.len() {
                        assert(r == g);
                    } else {
                        assert(old_cells[a].grainIds@[b] == r);
                        assert(old(self).resident_ok(r, a));
                        assert(old_cells[a].grainIds@.contains(r));
                    }
                }
                assert forall|a: int| 0 <= a < cells.len() implies (#[trigger] self.lattice.cells@[a]).grainIds@.no_duplicates() by {
                    if a == i {
                        crate::avalanche::lemma_push_no_duplicates(old_cells[a].grainIds@, g);
                    }
                }
                assert forall|x: u32| #[trigger] av.grainIds@.contains(x) implies self.moving_ok(x) by {
                    assert(old(self).moving_ok(x));
                }
                lemma_same_cells_settle(*old(self), *self);
            }
            energy
        } else {
            let energy = grain.energy;
            grain.state = GrainState::Rolling;
            if grain.energy > 1 {
                grain.energy = 1;
            }
            self.record_moving(grain, Ghost(av.grainIds@));
            proof {
                lemma_same_cells_settle(*old(self), *self);
            }
            energy
        }
    }
}

/// A grain set rolling by a topple: same position, one more unit of energy
/// (saturating), no stalls.
pub open spec fn released(g: Grain) -> Grain {
    Grain { state: GrainState::Rolling, energy: sat_add(g.energy as int, 1) as usize, stalls: 0, ..g }
}

/// Grain `x` of pile `q` is resident in column `(cx, cy)` at level `cz` or above.
pub open spec fn in_column(q: Sandpile, x: u32, cx: int, cy: int, cz: int) -> bool {
    &&& q.placed_grain(x)
    &&& q.grain(x).x == cx
    &&& q.grain(x).y == cy
    &&& q.grain(x).z >= cz
    &&& q.lattice.cells@[q.home(x)].grainIds@.contains(x)
}

/// The perturbation check at `(cx, cy, cz)` with energy `e` took pile `q` (grains
/// in motion `n`) to `p` (grains in motion `m`). For some extra-energy draw the
/// outcome is the one `topples` gives: either nothing changes, or every grain
/// resident in the column from `cz` up is set rolling (`released`) and joins the
/// grains in motion, the column's cells from `cz` up are left empty, and every
/// other cell and grain is untouched.
pub open spec fn perturbed(q: Sandpile, n: Seq<u32>, p: Sandpile, m: Seq<u32>, cx: int, cy: int, cz: int, e: usize) -> bool {
    &&& p.escaped == q.escaped
    &&& p.stranded == q.stranded
    &&& p.count() == q.count()
    &&& {
        ||| {
            &&& exists|d: i64| !#[trigger] topples(q.lattice.cell(cx, cy, cz), e, d)
            &&& p.registry == q.registry
            &&& m == n
            &&& forall|c: int| 0 <= c < q.lattice.cells@.len() ==> #[trigger] p.lattice.cells@[c].grainIds@
                == q.lattice.cells@[c].grainIds@
        }
        ||| {
            &&& exists|d: i64| #[trigger] topples(q.lattice.cell(cx, cy, cz), e, d)
            &&& forall|k: int| cz <= k < q.lattice.z_size ==> (#[trigger] p.lattice.cell(cx, cy, k)).grainIds@.len() == 0
            &&& forall|a: int, b: int, c: int|
                q.lattice.in_bounds(a, b, c) && (a != cx || b != cy || c < cz) ==> (#[trigger] p.lattice.cell(
                    a,
                    b,
                    c,
                )).grainIds@ == q.lattice.cell(a, b, c).grainIds@
            &&& forall|x: u32|
                x < q.count() ==> #[trigger] p.grain(x) == if in_column(q, x, cx, cy, cz) {
                    released(q.grain(x))
                } else {
                    q.grain(x)
                }
            &&& forall|x: u32| #[trigger] m.contains(x) <==> n.contains(x) || in_column(q, x, cx, cy, cz)
        }
    }
}

/// A grain held by a cell of column `(cx, cy)` at level `cz` or above is in that column.
pub proof fn lemma_column_member(q: Sandpile, x: u32, cx: int, cy: int, cz: int, zz: int)
    requires
        q.lattice.wf(),
        q.residents_ok(),
        q.lattice.in_bounds(cx, cy, zz),
        zz >= cz,
        q.lattice.cells@[q.lattice.index_of(cx, cy, zz)].grainIds@.contains(x),
    ensures
        in_column(q, x, cx, cy, cz),
        q.home(x) == q.lattice.index_of(cx, cy, zz),
        q.grain(x).z == zz,
{
    let c = q.lattice.index_of(cx, cy, zz);
    assert(q.lattice.placed(cx, cy, zz));
    let j = choose|j: int| 0 <= j < q.lattice.cells@[c].grainIds@.len() && q.lattice.cells@[c].grainIds@[j] == x;
    assert(q.resident_ok(q.lattice.cells@[c].grainIds@[j], c));
    let g = q.grain(x);
    q.lattice.lemma_index_injective(g.x as int, g.y as int, g.z as int, cx, cy, zz);
}

/// What a cell sheds is what it held and no longer holds.
pub proof fn lemma_sheds_split(before: Seq<u32>, after: Seq<u32>, out: Seq<u32>, x: u32)
    requires
        sheds(before, after, out),
        before.no_duplicates(),
    ensures
        out.contains(x) <==> before.contains(x) && !after.contains(x),
{
    lemma_sheds_apart(before, after, out);
    let n = before.len();
    if before.contains(x) && !after.contains(x) {
        let k = choose|k: int| 0 <= k < before.len() && before[k] == x;
        if k < after.len() {
            assert(after[k] == x);
        }
        assert(out[n - 1 - k] == x);
    }
    if out.contains(x) {
        let t = choose|t: int| 0 <= t < out.len() && out[t] == x;
    }
}

/// A cell that sheds everything sheds exactly what it held.
pub proof fn lemma_sheds_all(before: Seq<u32>, after: Seq<u32>, out: Seq<u32>, x: u32)
    requires
        sheds(before, after, out),
        out.len() == before.len(),
    ensures
        out.contains(x) <==> before.contains(x),
{
    let n = before.len();
    if out.contains(x) {
        let t = choose|t: int| 0 <= t < out.len() && out[t] == x;
        assert(before[n - 1 - t] == x);
    }
    if before.contains(x) {
        let k = choose|k: int| 0 <= k < before.len() && before[k] == x;
        assert(out[n - 1 - k] == x);
    }
}

/// What a cell keeps after shedding is duplicate-free and holds none of what it shed.
pub proof fn lemma_sheds_apart(before: Seq<u32>, after: Seq<u32>, out: Seq<u32>)
    requires
        sheds(before, after, out),
        before.no_duplicates(),
    ensures
        after.no_duplicates(),
        out.no_duplicates(),
        forall|t: int| 0 <= t < out.len() ==> !after.contains(#[trigger] out[t]),
        forall|t: int| 0 <= t < out.len() ==> before.contains(#[trigger] out[t]),
        forall|k: int| 0 <= k < after.len() ==> #[trigger] after[k] == before[k],
{
    let n = before.len();
    assert forall|t: int| 0 <= t < out.len() implies !after.contains(#[trigger] out[t]) by {
        if after.contains(out[t]) {
            let k = choose|k: int| 0 <= k < after.len() && after[k] == out[t];
            assert(before[k] == before[n - 1 - t]);
        }
    }
    assert forall|t: int| 0 <= t < out.len() implies before.contains(#[trigger] out[t]) by {
        assert(before[n - 1 - t] == out[t]);
    }
    assert forall|a: int, b: int| 0 <= a < out.len() && 0 <= b < out.len() && a != b implies out[a] != out[b] by {
        assert(out[a] == before[n - 1 - a]);
        assert(out[b] == before[n - 1 - b]);
    }
}

impl Sandpile {
    /// After cell `j` sheds `out` (possibly nothing), those grains are loose.
    pub proof fn lemma_after_shed(
        old_pile: Sandpile,
        new_pile: Sandpile,
        j: int,
        out: Seq<u32>,
        moving: Seq<u32>,
    )
        requires
            old_pile.inv(moving, Seq::empty()),
            new_pile.registry == old_pile.registry,
            new_pile.escaped == old_pile.escaped,
            new_pile.stranded == old_pile.stranded,
            new_pile.lattice.x_size == old_pile.lattice.x_size,
            new_pile.lattice.y_size == old_pile.lattice.y_size,
            new_pile.lattice.z_size == old_pile.lattice.z_size,
            0 <= j < old_pile.lattice.cells@.len(),
            new_pile.lattice.cells@.len() == old_pile.lattice.cells@.len(),
            forall|k: int| 0 <= k < old_pile.lattice.cells@.len() && k != j ==> new_pile.lattice.cells@[k] == old_pile.lattice.cells@[k],
            same_frame(new_pile.lattice.cells@[j], old_pile.lattice.cells@[j]),
            sheds(old_pile.lattice.cells@[j].grainIds@, new_pile.lattice.cells@[j].grainIds@, out),
        ensures
            new_pile.inv(moving, out),
            new_pile.keeps_frame(old_pile),
    {
        let before = old_pile.lattice.cells@[j].grainIds@;
        let after = new_pile.lattice.cells@[j].grainIds@;
        let cells = new_pile.lattice.cells@;
        let old_cells = old_pile.lattice.cells@;
        assert(old_cells[j].grainIds@.no_duplicates());
        lemma_sheds_apart(before, after, out);
        lemma_lattice_one_cell(old_pile.lattice, new_pile.lattice, j);
        lemma_resident_total_update(old_cells, j, cells[j]);
        assert(cells =~= old_cells.update(j, cells[j]));
        assert forall|a: int, b: int|
            0 <= a < cells.len() && 0 <= b < cells[a].grainIds@.len() implies new_pile.resident_ok(
            #[trigger] new_pile.lattice.cells@[a].grainIds@[b],
            a,
        ) by {
            assert(old_cells[a].grainIds@[b] == cells[a].grainIds@[b]);
            assert(old_pile.resident_ok(old_cells[a].grainIds@[b], a));
        }
        assert forall|a: int| 0 <= a < cells.len() implies (#[trigger] new_pile.lattice.cells@[a]).grainIds@.no_duplicates() by {
            assert(old_cells[a].grainIds@.no_duplicates());
        }
        assert forall|g: u32| #[trigger] moving.contains(g) implies new_pile.moving_ok(g) by {
            assert(old_pile.moving_ok(g));
        }
        assert forall|t: int| 0 <= t < out.len() implies new_pile.loose_ok(#[trigger] out[t]) by {
            let g = out[t];
            let k = choose|k: int| 0 <= k < before.len() && before[k] == g;
            assert(old_pile.resident_ok(old_cells[j].grainIds@[k], j));
        }
        lemma_same_cells_settle(old_pile, new_pile);
    }

    /// Set the next loose grain rolling with one more unit of energy and put it
    /// in the avalanche.
    fn release_one(&mut self, av: &mut Avalanche, g: u32, Ghost(loose): Ghost<Seq<u32>>)
        requires
            old(self).inv(old(av).grainIds@, loose),
            old(av).wf(),
            loose.len() > 0,
            loose[0] == g,
        ensures
            final(self).inv(final(av).grainIds@, loose.drop_first()),
            final(av).wf(),
            final(self).lattice == old(self).lattice,
            final(self).registry.grains@ == old(self).registry.grains@.update(g as int, released(old(self).grain(g))),
            final(av).grainIds@ == old(av).grainIds@.push(g),
            forall|x: u32| #[trigger] final(av).involvedIds@.contains(x) <==> old(av).involvedIds@.contains(x) || x == g,
            final(self).count() == old(self).count(),
            final(self).escaped == old(self).escaped,
            final(self).stranded == old(self).stranded,
            final(av).totalGrainsInvolved >= old(av).totalGrainsInvolved,
            final(av).id == old(av).id,
            final(av).locationIds@ == old(av).locationIds@,
            final(av).totalMovement == old(av).totalMovement,
    {
        let mut grain = self.registry.grains[g as usize];
        proof {
            assert(old(self).loose_ok(loose[0]));
            old(self).lemma_absent(g);
            if old(av).grainIds@.contains(g) {
                assert(old(self).moving_ok(g));
            }
        }
        grain.state = GrainState::Rolling;
        grain.incrementEnergy();
        grain.stalls = 0;
        self.registry.grains.set(g as usize, grain);
        let ghost involved = av.involvedIds@;
        av.addGrain(g);
        proof {
            assert forall|x: u32| #[trigger] av.involvedIds@.contains(x) <==> involved.contains(x) || x == g by {
                lemma_push_contains(involved, g, x);
            }
            Sandpile::lemma_residents_after_record(*old(self), *self, g);
            assert forall|x: u32| #[trigger] av.grainIds@.contains(x) implies self.moving_ok(x) by {
                lemma_push_contains(old(av).grainIds@, g, x);
                if x != g {
                    assert(old(self).moving_ok(x));
                }
            }
            let rest = loose.drop_first();
            assert forall|k: int| 0 <= k < rest.len() implies self.loose_ok(#[trigger] rest[k]) by {
                assert(rest[k] == loose[k + 1]);
                assert(old(self).loose_ok(loose[k + 1]));
            }
            assert(rest.no_duplicates()) by {
                assert forall|a: int, b: int| 0 <= a < rest.len() && 0 <= b < rest.len() && a != b implies rest[a] != rest[b] by {
                    assert(rest[a] == loose[a + 1]);
                    assert(rest[b] == loose[b + 1]);
                }
            }
        }
    }

    /// Set every grain of `out`, which are loose, rolling in the avalanche.
    fn release_all(&mut self, av: &mut Avalanche, out: &Vec<u32>)
        requires
            old(self).inv(old(av).grainIds@, out@),
            old(av).wf(),
        ensures
            final(self).inv(final(av).grainIds@, Seq::empty()),
            final(av).wf(),
            final(self).lattice == old(self).lattice,
            final(self).count() == old(self).count(),
            final(self).escaped == old(self).escaped,
            final(self).stranded == old(self).stranded,
            final(av).totalGrainsInvolved >= old(av).totalGrainsInvolved,
            final(av).id == old(av).id,
            final(av).locationIds@ == old(av).locationIds@,
            final(av).totalMovement == old(av).totalMovement,
            forall|x: u32|
                x < old(self).count() ==> #[trigger] final(self).grain(x) == if out@.contains(x) {
                    released(old(self).grain(x))
                } else {
                    old(self).grain(x)
                },
            forall|x: u32| #[trigger]
                final(av).grainIds@.contains(x) <==> old(av).grainIds@.contains(x) || out@.contains(x),
            forall|x: u32| #[trigger]
                final(av).involvedIds@.contains(x) <==> old(av).involvedIds@.contains(x) || out@.contains(x),
    {
        let mut t: usize = 0;
        while t < out.len()
            invariant
                t <= out@.len(),
                self.inv(av.grainIds@, out@.subrange(t as int, out@.len() as int)),
                av.wf(),
                self.lattice == old(self).lattice,
                self.count() == old(self).count(),
                self.escaped == old(self).escaped,
                self.stranded == old(self).stranded,
                av.id == old(av).id,
                av.totalGrainsInvolved >= old(av).totalGrainsInvolved,
                av.locationIds@ == old(av).locationIds@,
                av.totalMovement == old(av).totalMovement,
                out@.no_duplicates(),
                forall|x: u32|
                    x < old(self).count() ==> #[trigger] self.grain(x) == if out@.subrange(0, t as int).contains(x) {
                        released(old(self).grain(x))
                    } else {
                        old(self).grain(x)
                    },
                forall|x: u32| #[trigger]
                    av.grainIds@.contains(x) <==> old(av).grainIds@.contains(x) || out@.subrange(0, t as int).contains(x),
                forall|x: u32| #[trigger]
                    av.involvedIds@.contains(x) <==> old(av).involvedIds@.contains(x) || out@.subrange(0, t as int).contains(x),
            decreases out@.len() - t,
        {
            let ghost loose = out@.subrange(t as int, out@.len() as int);
            let ghost pre = out@.subrange(0, t as int);
            let ghost before = *self;
            let ghost moving = av.grainIds@;
            let g = out[t];
            proof {
                assert(loose[0] == g);
                if pre.contains(g) {
                    let u = choose|u: int| 0 <= u < pre.len() && pre[u] == g;
                    assert(out@[u] == out@[t as int]);
                }
            }
            self.release_one(av, g, Ghost(loose));
            t = t + 1;
            proof {
                assert(loose.drop_first() =~= out@.subrange(t as int, out@.len() as int));
                assert(out@.subrange(0, t as int) =~= pre.push(g));
                assert forall|x: u32| x < old(self).count() implies #[trigger] self.grain(x) == if out@.subrange(
                    0,
                    t as int,
                ).contains(x) {
                    released(old(self).grain(x))
                } else {
                    old(self).grain(x)
                } by {
                    lemma_push_contains(pre, g, x);
                    assert(before.grain(x) == if pre.contains(x) { released(old(self).grain(x)) } else { old(self).grain(x) });
                }
                assert forall|x: u32| #[trigger] av.grainIds@.contains(x) <==> old(av).grainIds@.contains(x)
                    || out@.subrange(0, t as int).contains(x) by {
                    lemma_push_contains(pre, g, x);
                    lemma_push_contains(moving, g, x);
                }
                assert forall|x: u32| #[trigger] av.involvedIds@.contains(x) <==> old(av).involvedIds@.contains(x)
                    || out@.subrange(0, t as int).contains(x) by {
                    lemma_push_contains(pre, g, x);
                }
            }
        }
        assert(out@.subrange(t as int, out@.len() as int) =~= Seq::<u32>::empty());
        assert(out@.subrange(0, t as int) =~= out@);
    }

    /// Shed every resident of cell `j` and set them rolling.
    fn pull_cell(&mut self, av: &mut Avalanche, j: usize)
        requires
            old(self).inv(old(av).grainIds@, Seq::empty()),
            old(av).wf(),
            j < old(self).lattice.cells@.len(),
        ensures
            final(self).inv(final(av).grainIds@, Seq::empty()),
            final(av).wf(),
            final(self).keeps_frame(*old(self)),
            final(self).escaped == old(self).escaped,
            final(self).stranded == old(self).stranded,
            final(av).totalGrainsInvolved >= old(av).totalGrainsInvolved,
            final(av).id == old(av).id,
            final(av).locationIds@ == old(av).locationIds@,
            final(av).totalMovement == old(av).totalMovement,
            final(self).lattice.cells@[j as int].grainIds@.len() == 0,
            forall|c: int| 0 <= c < old(self).lattice.cells@.len() && c != j ==> #[trigger] final(self).lattice.cells@[c]
                == old(self).lattice.cells@[c],
            forall|x: u32|
                x < old(self).count() ==> #[trigger] final(self).grain(x) == if old(self).lattice.cells@[j as int].grainIds@.contains(x) {
                    released(old(self).grain(x))
                } else {
                    old(self).grain(x)
                },
            forall|x: u32| #[trigger]
                final(av).grainIds@.contains(x) <==> old(av).grainIds@.contains(x)
                    || old(self).lattice.cells@[j as int].grainIds@.contains(x),
            forall|x: u32| #[trigger]
                final(av).involvedIds@.contains(x) <==> old(av).involvedIds@.contains(x)
                    || old(self).lattice.cells@[j as int].grainIds@.contains(x),
    {
        let n = self.lattice.cells[j].grainIds.len();
        let out = self.lattice.cells[j].shed(n);
        proof {
            Sandpile::lemma_after_shed(*old(self), *self, j as int, out@, old(av).grainIds@);
        }
        let ghost mid = *self;
        self.release_all(av, &out);
        proof {
            lemma_same_cells_trans(*old(self), mid, *self);
            assert forall|x: u32| #[trigger] out@.contains(x) <==> old(self).lattice.cells@[j as int].grainIds@.contains(x) by {
                lemma_sheds_all(old(self).lattice.cells@[j as int].grainIds@, mid.lattice.cells@[j as int].grainIds@, out@, x);
            }
        }
    }

    /// The perturbation check of an impact at `(x, y, z)`. A toppling cell sets
    /// the grains it sheds rolling, then every grain resident in its column at
    /// or above its level joins the cascade too.
    fn perturb<R: Variates>(&mut self, av: &mut Avalanche, x: i32, y: i32, z: i32, energy: usize, rng: &mut R)
        requires
            old(self).inv(old(av).grainIds@, Seq::empty()),
            old(av).wf(),
            old(self).lattice.in_bounds(x as int, y as int, z as int),
        ensures
            final(self).inv(final(av).grainIds@, Seq::empty()),
            final(av).wf(),
            final(self).keeps_frame(*old(self)),
            final(self).escaped == old(self).escaped,
            final(self).stranded == old(self).stranded,
            final(av).totalGrainsInvolved >= old(av).totalGrainsInvolved,
            final(av).id == old(av).id,
            final(av).totalMovement == old(av).totalMovement,
            perturbed(
                *old(self),
                old(av).grainIds@,
                *final(self),
                final(av).grainIds@,
                x as int,
                y as int,
                z as int,
                energy,
            ),
            joined(*old(av), *final(av)),
    {
        let i = self.lattice.index(x, y, z);
        let ghost q = *self;
        let ghost n = av.grainIds@;
        let shed = self.lattice.cells[i].purtubation(energy, rng);
        match shed {
            None => {
                proof {
                    let before = old(self).lattice.cells@[i as int].grainIds@;
                    assert(before.subrange(0, before.len() as int) =~= before);
                    let after = self.lattice.cells@[i as int].grainIds@;
                    assert(sheds(before, after, Seq::<u32>::empty()));
                    Sandpile::lemma_after_shed(*old(self), *self, i as int, Seq::empty(), old(av).grainIds@);
                    let d = choose|d: i64| !#[trigger] topples(q.lattice.cells@[i as int], energy, d);
                    assert(!topples(q.lattice.cell(x as int, y as int, z as int), energy, d));
                    assert forall|c: int| 0 <= c < q.lattice.cells@.len() implies #[trigger] self.lattice.cells@[c].grainIds@
                        == q.lattice.cells@[c].grainIds@ by {
                    }
                }
            },
            Some(out) => {
                proof {
                    Sandpile::lemma_after_shed(*old(self), *self, i as int, out@, old(av).grainIds@);
                    let d = choose|d: i64| #[trigger] topples(q.lattice.cells@[i as int], energy, d);
                    assert(topples(q.lattice.cell(x as int, y as int, z as int), energy, d));
                }
                let ghost mid = *self;
                self.release_all(av, &out);
                proof {
                    assert(q.lattice.cells@[i as int].grainIds@.no_duplicates());
                    assert forall|g: u32| #[trigger] out@.contains(g) <==> in_column(q, g, x as int, y as int, z as int)
                        && !self.lattice.cells@[q.home(g)].grainIds@.contains(g) by {
                        lemma_sheds_split(q.lattice.cells@[i as int].grainIds@, mid.lattice.cells@[i as int].grainIds@, out@, g);
                        if out@.contains(g) {
                            lemma_column_member(q, g, x as int, y as int, z as int, z as int);
                        }
                        if in_column(q, g, x as int, y as int, z as int) && q.home(g) != i {
                            assert(self.lattice.cells@[q.home(g)] == q.lattice.cells@[q.home(g)]);
                        }
                    }
                }
                let cell_id = self.lattice.cells[i].id;
                if !contains_id(&av.locationIds, cell_id) {
                    av.locationIds.push(cell_id);
                }
                let column = Location::getCeilingLocations(&self.lattice, x, y, z);
                let mut k: usize = 0;
                while k < column.len()
                    invariant
                        self.inv(av.grainIds@, Seq::empty()),
                        av.wf(),
                        self.keeps_frame(*old(self)),
                        self.escaped == old(self).escaped,
                        self.stranded == old(self).stranded,
                        av.id == old(av).id,
                        av.totalGrainsInvolved >= old(av).totalGrainsInvolved,
                        av.totalMovement == old(av).totalMovement,
                        old(self).lattice.in_bounds(x as int, y as int, z as int),
                        column@ == old(self).lattice.ceiling_column(x as int, y as int, z as int),
                        k <= column@.len(),
                        q == *old(self),
                        n == old(av).grainIds@,
                        q.inv(n, Seq::empty()),
                        exists|d: i64| #[trigger] topples(q.lattice.cell(x as int, y as int, z as int), energy, d),
                        forall|kk: int| 0 <= kk < k ==> (#[trigger] self.lattice.cell(x as int, y as int, z + kk)).grainIds@.len() == 0,
                        forall|c: int| 0 <= c < q.lattice.cells@.len() ==> {
                            &&& (#[trigger] self.lattice.cells@[c]).grainIds@.len() <= q.lattice.cells@[c].grainIds@.len()
                            &&& self.lattice.cells@[c].grainIds@ == q.lattice.cells@[c].grainIds@.subrange(0, self.lattice.cells@[c].grainIds@.len() as int)
                        },
                        forall|a: int, b: int, c: int|
                            q.lattice.in_bounds(a, b, c) && (a != x || b != y || c < z) ==> (#[trigger] self.lattice.cell(
                                a,
                                b,
                                c,
                            )).grainIds@ == q.lattice.cell(a, b, c).grainIds@,
                        forall|g: u32|
                            g < q.count() ==> #[trigger] self.grain(g) == if in_column(q, g, x as int, y as int, z as int)
                                && !self.lattice.cells@[q.home(g)].grainIds@.contains(g) {
                                released(q.grain(g))
                            } else {
                                q.grain(g)
                            },
                        forall|g: u32| #[trigger]
                            av.grainIds@.contains(g) <==> n.contains(g) || (in_column(q, g, x as int, y as int, z as int)
                                && !self.lattice.cells@[q.home(g)].grainIds@.contains(g)),
                        forall|g: u32| #[trigger]
                            av.involvedIds@.contains(g) <==> old(av).involvedIds@.contains(g) || (in_column(q, g, x as int, y as int, z as int)
                                && !self.lattice.cells@[q.home(g)].grainIds@.contains(g)),
                    decreases column@.len() - k,
                {
                    let (cx, cy, cz) = column[k];
                    let j = self.lattice.index(cx, cy, cz);
                    let ghost before = *self;
                    let ghost moving = av.grainIds@;
                    self.pull_cell(av, j);
                    proof {
                        lemma_same_cells_trans(*old(self), before, *self);
                        let zk = z + k;
                        assert(column@[k as int] == (x, y, zk as i32));
                        assert(j == q.lattice.index_of(x as int, y as int, zk));
                        assert forall|kk: int| 0 <= kk < k + 1 implies (#[trigger] self.lattice.cell(x as int, y as int, z + kk)).grainIds@.len() == 0 by {
                            if kk < k && q.lattice.index_of(x as int, y as int, z + kk) == j {
                                q.lattice.lemma_index_injective(x as int, y as int, z + kk, x as int, y as int, zk);
                            }
                            if kk < k {
                                assert(q.lattice.in_bounds(x as int, y as int, z + kk));
                                assert(before.lattice.cell(x as int, y as int, z + kk).grainIds@.len() == 0);
                            }
                        }
                        assert forall|a: int, b: int, c: int|
                            q.lattice.in_bounds(a, b, c) && (a != x || b != y || c < z) implies (#[trigger] self.lattice.cell(
                                a,
                                b,
                                c,
                            )).grainIds@ == q.lattice.cell(a, b, c).grainIds@ by {
                            if q.lattice.index_of(a, b, c) == j {
                                q.lattice.lemma_index_injective(a, b, c, x as int, y as int, zk);
                            }
                            assert(q.lattice.placed(a, b, c));
                            assert(before.lattice.cell(a, b, c).grainIds@ == q.lattice.cell(a, b, c).grainIds@);
                        }
                        assert forall|c: int| 0 <= c < q.lattice.cells@.len() implies {
                            &&& (#[trigger] self.lattice.cells@[c]).grainIds@.len() <= q.lattice.cells@[c].grainIds@.len()
                            &&& self.lattice.cells@[c].grainIds@ == q.lattice.cells@[c].grainIds@.subrange(0, self.lattice.cells@[c].grainIds@.len() as int)
                        } by {
                            if c == j {
                                assert(self.lattice.cells@[c].grainIds@ =~= q.lattice.cells@[c].grainIds@.subrange(0, 0));
                            } else {
                                assert(self.lattice.cells@[c] == before.lattice.cells@[c]);
                            }
                        }
                        let qj = q.lattice.cells@[j as int].grainIds@;
                        let bj = before.lattice.cells@[j as int].grainIds@;
                        assert forall|g: u32| #[trigger] bj.contains(g) implies in_column(q, g, x as int, y as int, z as int)
                            && q.home(g) == j by {
                            let u = choose|u: int| 0 <= u < bj.len() && bj[u] == g;
                            assert(qj[u] == g);
                            lemma_column_member(q, g, x as int, y as int, z as int, zk);
                        }
                        assert forall|g: u32| g < q.count() implies #[trigger] self.grain(g) == if in_column(q, g, x as int, y as int, z as int)
                            && !self.lattice.cells@[q.home(g)].grainIds@.contains(g) {
                            released(q.grain(g))
                        } else {
                            q.grain(g)
                        } by {
                            if bj.contains(g) {
                            } else if in_column(q, g, x as int, y as int, z as int) && q.home(g) != j {
                                assert(self.lattice.cells@[q.home(g)] == before.lattice.cells@[q.home(g)]);
                            }
                        }
                        assert forall|g: u32| #[trigger] av.grainIds@.contains(g) <==> n.contains(g) || (in_column(q, g, x as int, y as int, z as int)
                            && !self.lattice.cells@[q.home(g)].grainIds@.contains(g)) by {
                            if bj.contains(g) {
                            } else if in_column(q, g, x as int, y as int, z as int) && q.home(g) != j {
                                assert(self.lattice.cells@[q.home(g)] == before.lattice.cells@[q.home(g)]);
                            }
                        }
                        assert forall|g: u32| #[trigger] av.involvedIds@.contains(g) <==> old(av).involvedIds@.contains(g) || (in_column(q, g, x as int, y as int, z as int)
                            && !self.lattice.cells@[q.home(g)].grainIds@.contains(g)) by {
                            if bj.contains(g) {
                            } else if in_column(q, g, x as int, y as int, z as int) && q.home(g) != j {
                                assert(self.lattice.cells@[q.home(g)] == before.lattice.cells@[q.home(g)]);
                            }
                        }
                    }
                    k = k + 1;
                }
                proof {
                    if column@.len() == 0 {
                        lemma_same_cells_trans(*old(self), mid, *self);
                    }
                    let zs = q.lattice.z_size as int;
                    assert forall|kk: int| z <= kk < zs implies (#[trigger] self.lattice.cell(x as int, y as int, kk)).grainIds@.len()
                        == 0 by {
                        assert(self.lattice.cell(x as int, y as int, z + (kk - z)).grainIds@.len() == 0);
                    }
                    assert forall|g: u32| in_column(q, g, x as int, y as int, z as int) implies !#[trigger] self.lattice.cells@[q.home(
                        g,
                    )].grainIds@.contains(g) by {
                        let zz = q.grain(g).z as int;
                        assert(self.lattice.cell(x as int, y as int, zz).grainIds@.len() == 0);
                    }
                    assert forall|g: u32| g < q.count() implies #[trigger] self.grain(g) == if in_column(q, g, x as int, y as int, z as int) {
                        released(q.grain(g))
                    } else {
                        q.grain(g)
                    } by {
                        if in_column(q, g, x as int, y as int, z as int) {
                            assert(!self.lattice.cells@[q.home(g)].grainIds@.contains(g));
                        }
                    }
                    assert forall|g: u32| #[trigger] av.grainIds@.contains(g) <==> n.contains(g) || in_column(q, g, x as int, y as int, z as int) by {
                        if in_column(q, g, x as int, y as int, z as int) {
                            assert(!self.lattice.cells@[q.home(g)].grainIds@.contains(g));
                        }
                    }
                    assert forall|g: u32| #[trigger] av.involvedIds@.contains(g) <==> old(av).involvedIds@.contains(g)
                        || (av.grainIds@.contains(g) && !n.contains(g)) by {
                        if in_column(q, g, x as int, y as int, z as int) {
                            assert(!self.lattice.cells@[q.home(g)].grainIds@.contains(g));
                            if n.contains(g) {
                                assert(q.moving_ok(g));
                                let h = q.home(g);
                                let u = choose|u: int| 0 <= u < q.lattice.cells@[h].grainIds@.len() && q.lattice.cells@[h].grainIds@[u] == g;
                                assert(q.resident_ok(q.lattice.cells@[h].grainIds@[u], h));
                            }
                        }
                    }
                }
            },
        }
    }
}

/// What one roll step did to the pile, the grains in motion and grain `g`,
/// given the move the roll rule chose.
pub open spec fn roll_effect(
    before: Sandpile,
    after: Sandpile,
    moving_before: Seq<u32>,
    moving_after: Seq<u32>,
    g: u32,
    mv: RollMove,
) -> bool {
    let gr = before.grain(g);
    &&& after.stranded == before.stranded
    &&& match mv {
        RollMove::To(x, y, z) => {
            &&& after.lattice == before.lattice
            &&& after.registry.grains@ == before.registry.grains@.update(
                g as int,
                Grain { x, y, z, state: GrainState::Impact, stalls: 0, ..gr },
            )
            &&& moving_after == moving_before
            &&& after.escaped == before.escaped
        },
        RollMove::Escape => {
            &&& after.lattice == before.lattice
            &&& after.registry == before.registry
            &&& forall|x: u32| #[trigger] moving_after.contains(x) <==> moving_before.contains(x) && x != g
            &&& after.escaped == before.escaped + 1
        },
        RollMove::Wait => {
            &&& after.lattice == before.lattice
            &&& after.registry.grains@ == before.registry.grains@.update(
                g as int,
                Grain { stalls: (gr.stalls + 1) as usize, ..gr },
            )
            &&& moving_after == moving_before
            &&& after.escaped == before.escaped
        },
        RollMove::Settle => {
            &&& Lattice::has_room(before.lattice.cells@[before.home(g)])
            &&& absorbed(before, moving_before, after, moving_after, g)
        },
        RollMove::Climb => {
            &&& after.lattice == before.lattice
            &&& after.registry.grains@ == before.registry.grains@.update(
                g as int,
                Grain { z: (gr.z + 1) as i32, state: GrainState::Impact, stalls: 0, ..gr },
            )
            &&& moving_after == moving_before
            &&& after.escaped == before.escaped
        },
    }
}

/// The impact of grain `g` at its cell, before the perturbation check: with
/// room the cell keeps it (at rest, no energy) and it leaves the grains in
/// motion; without room it rolls on with its energy capped at 1. Nothing else
/// changes.
pub open spec fn absorbed(p: Sandpile, m: Seq<u32>, q: Sandpile, n: Seq<u32>, g: u32) -> bool {
    let h = p.home(g);
    let gr = p.grain(g);
    let room = Lattice::has_room(p.lattice.cells@[h]);
    &&& q.escaped == p.escaped
    &&& q.stranded == p.stranded
    &&& q.lattice.x_size == p.lattice.x_size
    &&& q.lattice.y_size == p.lattice.y_size
    &&& q.lattice.z_size == p.lattice.z_size
    &&& q.registry.grains@ == p.registry.grains@.update(
        g as int,
        if room {
            Grain { energy: 0, state: GrainState::Stationary, ..gr }
        } else {
            Grain { energy: if gr.energy > 1 { 1 } else { gr.energy }, state: GrainState::Rolling, ..gr }
        },
    )
    &&& q.lattice.cells@.len() == p.lattice.cells@.len()
    &&& forall|c: int| 0 <= c < p.lattice.cells@.len() && c != h ==> #[trigger] q.lattice.cells@[c] == p.lattice.cells@[c]
    &&& q.lattice.cells@[h].grainIds@ == if room {
        p.lattice.cells@[h].grainIds@.push(g)
    } else {
        p.lattice.cells@[h].grainIds@
    }
    &&& forall|x: u32| #[trigger] n.contains(x) <==> m.contains(x) && !(room && x == g)
}

/// The effect of an impact step of grain `g`: it lands or rolls on
/// (`absorbed`), then its cell undergoes the perturbation check with the
/// grain's energy from before the impact (`perturbed`).
pub open spec fn impacted(p: Sandpile, m: Seq<u32>, p2: Sandpile, m2: Seq<u32>, g: u32) -> bool {
    let gr = p.grain(g);
    exists|q: Sandpile, n: Seq<u32>|
        #[trigger] absorbed(p, m, q, n, g) && perturbed(q, n, p2, m2, gr.x as int, gr.y as int, gr.z as int, gr.energy)
}

/// One transition of grain `g`, in motion in pile `p` (grains in motion `m`),
/// giving pile `p2` (grains in motion `m2`): `Unknown` starts falling, `Falling`
/// takes one step of free fall, `Impact` lands or rolls on and perturbs its
/// cell, `Rolling` follows the roll rule for some choice.
#[verifier::opaque]
pub open spec fn step(p: Sandpile, m: Seq<u32>, p2: Sandpile, m2: Seq<u32>, g: u32) -> bool {
    let gr = p.grain(g);
    &&& m.contains(g)
    &&& match gr.state {
        GrainState::Unknown => {
            &&& p2.lattice == p.lattice
            &&& p2.registry.grains@ == p.registry.grains@.update(g as int, Grain { state: GrainState::Falling, ..gr })
            &&& m2 == m
            &&& p2.escaped == p.escaped
            &&& p2.stranded == p.stranded
        },
        GrainState::Falling => {
            &&& p2.lattice == p.lattice
            &&& p2.registry.grains@ == p.registry.grains@.update(g as int, fall_step(p.lattice, gr))
            &&& m2 == m
            &&& p2.escaped == p.escaped
            &&& p2.stranded == p.stranded
        },
        GrainState::Impact => impacted(p, m, p2, m2, g),
        GrainState::Rolling => exists|choice: usize|
            roll_effect(p, p2, m, m2, g, #[trigger] roll_move(p.lattice, gr, choice)),
        GrainState::Stationary => false,
    }
}

/// `start` is `before` with grain `before.count()` newly recorded at `(x, y)` on
/// the top level, at rest in state `Unknown`.
pub open spec fn dropped_at(before: Sandpile, start: Sandpile, x: int, y: int) -> bool {
    &&& start.lattice == before.lattice
    &&& start.escaped == before.escaped
    &&& start.stranded == before.stranded
    &&& start.registry.grains@ == before.registry.grains@.push(
        Grain {
            id: before.count() as u32,
            x: x as i32,
            y: y as i32,
            z: (before.lattice.z_size - 1) as i32,
            energy: 0,
            state: GrainState::Unknown,
            stalls: 0,
        },
    )
}

/// One `step` of grain `g` together with the avalanche's counters: the
/// grains that joined the motion count as involved, and the movement count
/// grows by one (saturating) exactly when the grain changed position.
pub open spec fn advance(p: Sandpile, a: Avalanche, p2: Sandpile, a2: Avalanche, g: u32) -> bool {
    &&& step(p, a.grainIds@, p2, a2.grainIds@, g)
    &&& joined(a, a2)
    &&& a2.totalMovement == if relocated(p.grain(g), p2.grain(g)) {
        sat_add(a.totalMovement as int, 1) as usize
    } else {
        a.totalMovement
    }
}

/// State `i + 1` of `trace` follows from state `i` by one `advance`.
pub open spec fn linked(trace: Seq<(Sandpile, Avalanche)>, i: int) -> bool {
    exists|g: u32| #[trigger] advance(trace[i].0, trace[i].1, trace[i + 1].0, trace[i + 1].1, g)
}

/// Consecutive states of `trace` are related by one `advance` each.
pub open spec fn steps_through(trace: Seq<(Sandpile, Avalanche)>) -> bool {
    forall|i: int| 0 <= i < trace.len() - 1 ==> #[trigger] linked(trace, i)
}

/// One deposit as a run of the state machine: the new grain lands at a spot
/// `landing_coord` gives for some draws, alone in motion and alone involved;
/// every later state follows from the one before by an `advance`; the last
/// state is the pile after the call, except that the grains still in motion
/// there count as stranded, and its counters are the report's.
pub open spec fn drop_run(
    before: Sandpile,
    after: Sandpile,
    rep: AvalancheReport,
    trace: Seq<(Sandpile, Avalanche)>,
) -> bool {
    &&& trace.len() >= 1
    &&& trace[0].1.grainIds@ == seq![before.count() as u32]
    &&& trace[0].1.involvedIds@ == seq![before.count() as u32]
    &&& trace[0].1.totalMovement == 0
    &&& trace.last().1.wf()
    &&& rep.totalGrainsInvolved == trace.last().1.involvedIds@.len()
    &&& rep.totalMovement == trace.last().1.totalMovement
    &&& rep.escaped == after.escaped - before.escaped
    &&& rep.complete <==> trace.last().1.grainIds@.len() == 0
    &&& rep.passes + 1 <= trace.len()
    &&& exists|dx: i64, dy: i64, ox: usize, oy: usize|
        #[trigger] dropped_at(
            before,
            trace[0].0,
            landing_coord(before.lattice.x_size as int, dx, ox),
            landing_coord(before.lattice.y_size as int, dy, oy),
        )
    &&& steps_through(trace)
    &&& trace.last().0.lattice == after.lattice
    &&& trace.last().0.registry == after.registry
    &&& trace.last().0.escaped == after.escaped
    &&& trace.last().0.stranded == before.stranded
    &&& after.stranded == trace.last().0.stranded + trace.last().1.grainIds@.len()
}

/// Extending a run by one step keeps it a run.
pub proof fn lemma_trace_push(prev: Seq<(Sandpile, Avalanche)>, next: (Sandpile, Avalanche), g: u32)
    requires
        prev.len() >= 1,
        steps_through(prev),
        advance(prev.last().0, prev.last().1, next.0, next.1, g),
    ensures
        steps_through(prev.push(next)),
        prev.push(next)[0] == prev[0],
        prev.push(next).last() == next,
{
    let trace = prev.push(next);
    assert forall|i: int| 0 <= i < trace.len() - 1 implies #[trigger] linked(trace, i) by {
        if i < prev.len() - 1 {
            assert(linked(prev, i));
            assert(trace[i] == prev[i]);
            assert(trace[i + 1] == prev[i + 1]);
        } else {
            assert(trace[i] == prev.last());
            assert(trace[i + 1] == next);
            assert(advance(trace[i].0, trace[i].1, trace[i + 1].0, trace[i + 1].1, g));
        }
    }
    assert(steps_through(trace));
}

/// Summary of one deposit.
#[derive(Clone, Copy, Debug, PartialEq, Eq, Structural)]
pub struct AvalancheReport {
    pub avalancheId: u32,
    /// Distinct grains that took part.
    pub totalGrainsInvolved: usize,
    /// Relocation events, saturating.
    pub totalMovement: usize,
    /// Grains of this avalanche that fell out of the lattice.
    pub escaped: usize,
    /// False when the pass budget ran out before every grain came to rest.
    pub complete: bool,
    /// Passes the avalanche took.
    pub passes: usize,
}

impl AvalancheReport {
    /// Size of the avalanche as grains involved times movement.
    pub fn magnitude(&self) -> (r: u128)
        ensures
            r == self.totalGrainsInvolved * self.totalMovement,
    {
        proof {
            assert(self.totalGrainsInvolved * self.totalMovement <= usize::MAX * usize::MAX) by (nonlinear_arith);
            assert(usize::MAX * usize::MAX <= u128::MAX) by (nonlinear_arith)
                requires
                    usize::MAX <= u64::MAX,
            ;
        }
        self.totalGrainsInvolved as u128 * self.totalMovement as u128
    }
}

impl Sandpile {
    /// A pile over an empty lattice, with no grain dropped yet.
    pub fn new(lattice: Lattice) -> (r: Sandpile)
        requires
            lattice.wf(),
            forall|i: int| 0 <= i < lattice.cells@.len() ==> (#[trigger] lattice.cells@[i]).grainIds@.len() == 0,
        ensures
            r.wf(),
            r.lattice == lattice,
            r.count() == 0,
            r.escaped == 0,
            r.stranded == 0,
    {
        proof {
            lemma_resident_total_empty(lattice.cells@);
        }
        Sandpile { lattice, registry: GrainRegistry::new(), escaped: 0, stranded: 0 }
    }

    /// Take a grain in motion out of the pile for good.
    pub(crate) fn lose(&mut self, av: &mut Avalanche, g: u32)
        requires
            old(self).inv(old(av).grainIds@, Seq::empty()),
            old(av).wf(),
            old(av).grainIds@.contains(g),
        ensures
            final(self).inv(final(av).grainIds@, Seq::empty()),
            final(av).wf(),
            final(self).lattice == old(self).lattice,
            final(self).registry == old(self).registry,
            final(self).escaped == old(self).escaped + 1,
            final(self).stranded == old(self).stranded,
            !final(av).grainIds@.contains(g),
            forall|x: u32| #[trigger] final(av).grainIds@.contains(x) <==> old(av).grainIds@.contains(x) && x != g,
            joined(*old(av), *final(av)),
            final(av).totalGrainsInvolved >= old(av).totalGrainsInvolved,
            final(av).id == old(av).id,
            final(av).totalMovement == old(av).totalMovement,
    {
        proof {
            lemma_resident_total_nonneg(self.lattice.cells@);
        }
        av.removeGrain(g);
        self.escaped = self.escaped + 1;
        proof {
            assert forall|x: u32| #[trigger] av.grainIds@.contains(x) implies self.moving_ok(x) by {
                assert(old(self).moving_ok(x));
            }
        }
    }

    /// One step of a rolling grain, following `Grain::roll` with a uniform choice
    /// among its open lower neighbours.
    pub(crate) fn roll_step<R: Variates>(&mut self, av: &mut Avalanche, g: u32, rng: &mut R)
        requires
            old(self).inv(old(av).grainIds@, Seq::empty()),
            old(av).wf(),
            old(av).grainIds@.contains(g),
        ensures
            final(self).inv(final(av).grainIds@, Seq::empty()),
            final(av).wf(),
            final(self).keeps_frame(*old(self)),
            final(self).escaped >= old(self).escaped,
            final(self).stranded == old(self).stranded,
            final(av).totalGrainsInvolved >= old(av).totalGrainsInvolved,
            final(av).id == old(av).id,
            exists|choice: usize|
                roll_effect(
                    *old(self),
                    *final(self),
                    old(av).grainIds@,
                    final(av).grainIds@,
                    g,
                    #[trigger] roll_move(old(self).lattice, old(self).grain(g), choice),
                ),
            joined(*old(av), *final(av)),
            final(av).totalMovement == if relocated(old(self).grain(g), final(self).grain(g)) {
                sat_add(old(av).totalMovement as int, 1) as usize
            } else {
                old(av).totalMovement
            },
    {
        let mut grain = self.registry.grains[g as usize];
        proof {
            assert(old(self).moving_ok(g));
        }
        let open = Location::openLowerNeighbors(&self.lattice, grain.x, grain.y, grain.z);
        let choice = if open.len() > 0 { rng.index_below(open.len()) } else { 0 };
        let mv = grain.roll(&self.lattice, choice);
        match mv {
            RollMove::To(x, y, z) => {
                grain.x = x;
                grain.y = y;
                grain.z = z;
                grain.state = GrainState::Impact;
                grain.stalls = 0;
                self.record_moving(grain, Ghost(av.grainIds@));
                av.totalMovement = av.totalMovement.saturating_add(1);
            },
            RollMove::Escape => {
                self.lose(av, g);
            },
            RollMove::Wait => {
                grain.stalls = grain.stalls + 1;
                self.record_moving(grain, Ghost(av.grainIds@));
            },
            RollMove::Settle => {
                self.absorb(av, g);
            },
            RollMove::Climb => {
                grain.z = grain.z + 1;
                grain.state = GrainState::Impact;
                grain.stalls = 0;
                self.record_moving(grain, Ghost(av.grainIds@));
                av.totalMovement = av.totalMovement.saturating_add(1);
            },
        }
        proof {
            lemma_same_cells_settle(*old(self), *self);
            assert(roll_effect(*old(self), *self, old(av).grainIds@, av.grainIds@, g, mv));
        }
    }

    /// The impact step: the cell at the grain's position takes it or it rolls
    /// on, then the cell undergoes the perturbation check with the grain's
    /// energy from before the impact.
    pub(crate) fn impact_step<R: Variates>(&mut self, av: &mut Avalanche, g: u32, rng: &mut R)
        requires
            old(self).inv(old(av).grainIds@, Seq::empty()),
            old(av).wf(),
            old(av).grainIds@.contains(g),
        ensures
            final(self).inv(final(av).grainIds@, Seq::empty()),
            final(av).wf(),
            final(self).keeps_frame(*old(self)),
            final(self).escaped == old(self).escaped,
            final(self).stranded == old(self).stranded,
            final(av).totalGrainsInvolved >= old(av).totalGrainsInvolved,
            final(av).id == old(av).id,
            impacted(*old(self), old(av).grainIds@, *final(self), final(av).grainIds@, g),
            joined(*old(av), *final(av)),
            final(av).totalMovement == old(av).totalMovement,
            !relocated(old(self).grain(g), final(self).grain(g)),
    {
        let grain = self.registry.grains[g as usize];
        proof {
            assert(old(self).moving_ok(g));
        }
        let energy = self.absorb(av, g);
        let ghost mid = *self;
        let ghost mid_moving = av.grainIds@;
        self.perturb(av, grain.x, grain.y, grain.z, energy, rng);
        proof {
            lemma_same_cells_trans(*old(self), mid, *self);
            assert(absorbed(*old(self), old(av).grainIds@, mid, mid_moving, g));
            assert(old(av).grainIds@.contains(g));
            assert(old(av).involvedIds@.contains(g));
            assert(g < mid.count());
            assert(self.grain(g) == released(mid.grain(g)) || self.grain(g) == mid.grain(g));
        }
    }
}

impl Sandpile {
    /// Drop one grain and run its avalanche to rest, or until `max_passes`
    /// passes are spent. The landing spot is drawn around the centre (two
    /// variance draws with exponent `landing_alpha`, two direction choices);
    /// the grain starts on the top level. Each pass advances every grain in
    /// motion by one transition. Grains still moving when the budget runs out
    /// are counted as stranded and the report is flagged incomplete.
    pub fn dropGrain<R: Variates>(&mut self, landing_alpha: u32, max_passes: usize, rng: &mut R) -> (r: Result<
        AvalancheReport,
        SandpileError,
    >)
        requires
            old(self).wf(),
            old(self).count() < u32::MAX,
        ensures
            (landing_alpha <= ALPHA_UNIT) <==> r is Err,
            r is Err ==> r == Err::<AvalancheReport, SandpileError>(SandpileError::InvalidParameter)
                && *final(self) == *old(self),
            r matches Ok(rep) ==> {
                &&& final(self).wf()
                &&& final(self).same_cells(*old(self))
                &&& final(self).count() == old(self).count() + 1
                &&& rep.avalancheId == old(self).count()
                &&& rep.passes <= max_passes
                &&& !rep.complete ==> rep.passes == max_passes
                &&& final(self).escaped == old(self).escaped + rep.escaped
                &&& rep.complete <==> final(self).stranded == old(self).stranded
                &&& rep.totalGrainsInvolved >= 1
                &&& exists|trace: Seq<(Sandpile, Avalanche)>| #[trigger] drop_run(*old(self), *final(self), rep, trace)
            },
    {
        if landing_alpha <= ALPHA_UNIT {
            return Err(SandpileError::InvalidParameter);
        }
        let x_draw = rng.order_of_magnitude(landing_alpha);
        let y_draw = rng.order_of_magnitude(landing_alpha);
        let x_direction = rng.index_below(2);
        let y_direction = rng.index_below(2);
        let (x, y, z) = Grain::determineInitialPosition(
            &self.lattice,
            x_draw,
            y_draw,
            x_direction,
            y_direction,
        );
        let id = self.registry.grains.len() as u32;
        let grain = Grain::new(id, x, y, z);
        Grain::addGrain(grain, &mut self.registry);
        let mut av = Avalanche::new(id);
        av.addGrain(id);
        proof {
            assert(av.grainIds@ =~= seq![id]);
            assert(av.involvedIds@ =~= seq![id]);
            Sandpile::lemma_residents_after_push(*old(self), *self);
            assert forall|g: u32| #[trigger] av.grainIds@.contains(g) implies self.moving_ok(g) by {
                assert(av.grainIds@[0] == id);
            }
            assert(dropped_at(
                *old(self),
                *self,
                landing_coord(old(self).lattice.x_size as int, x_draw, x_direction),
                landing_coord(old(self).lattice.y_size as int, y_draw, y_direction),
            ));
        }
        let ghost mut trace: Seq<(Sandpile, Avalanche)> = seq![(*self, av)];
        let ghost start = trace[0];
        let escaped_before = self.escaped;
        let mut passes: usize = 0;
        while av.grainIds.len() > 0 && passes < max_passes
            invariant
                self.inv(av.grainIds@, Seq::empty()),
                av.wf(),
                av.id == id,
                av.totalGrainsInvolved >= 1,
                self.same_cells(*old(self)),
                self.count() == old(self).count() + 1,
                self.escaped >= escaped_before,
                escaped_before == old(self).escaped,
                self.stranded == old(self).stranded,
                passes <= max_passes,
                trace.len() >= 1,
                trace[0] == start,
                steps_through(trace),
                trace.last() == (*self, av),
                passes + 1 <= trace.len(),
            decreases max_passes - passes,
        {
            let snapshot = copy_ids(&av.grainIds);
            let mut t: usize = 0;
            while t < snapshot.len()
                invariant
                    self.inv(av.grainIds@, Seq::empty()),
                    av.wf(),
                    av.id == id,
                    av.totalGrainsInvolved >= 1,
                    self.same_cells(*old(self)),
                    self.count() == old(self).count() + 1,
                    self.escaped >= escaped_before,
                    self.stranded == old(self).stranded,
                    t <= snapshot@.len(),
                    trace.len() >= 1,
                    trace[0] == start,
                    steps_through(trace),
                    trace.last() == (*self, av),
                    snapshot@.len() > 0,
                    passes < max_passes,
                    t == 0 ==> snapshot@ == av.grainIds@ && passes + 1 <= trace.len(),
                    t > 0 ==> passes + 2 <= trace.len(),
                decreases snapshot@.len() - t,
            {
                let g = snapshot[t];
                proof {
                    if t == 0 {
                        assert(av.grainIds@.contains(snapshot@[0]));
                    }
                }
                if contains_id(&av.grainIds, g) {
                    let ghost before = *self;
                    let ghost moving = av.grainIds@;
                    av.update(self, g, rng);
                    proof {
                        lemma_same_cells_trans(*old(self), before, *self);
                        lemma_trace_push(trace, (*self, av), g);
                        trace = trace.push((*self, av));
                    }
                }
                t = t + 1;
            }
            passes = passes + 1;
        }
        let leftover = av.grainIds.len();
        proof {
            lemma_resident_total_nonneg(self.lattice.cells@);
        }
        self.stranded = self.stranded + leftover;
        proof {
            assert forall|g: u32| #[trigger] Seq::<u32>::empty().contains(g) implies self.moving_ok(g) by {
            }
            assert(trace[0].1.grainIds@ == seq![old(self).count() as u32]);
            assert(dropped_at(
                *old(self),
                trace[0].0,
                landing_coord(old(self).lattice.x_size as int, x_draw, x_direction),
                landing_coord(old(self).lattice.y_size as int, y_draw, y_direction),
            ));
            assert(trace.last().0.lattice == self.lattice);
            assert(trace.last().0.registry == self.registry);
            assert(self.stranded == trace.last().0.stranded + trace.last().1.grainIds@.len());
        }
        let report = AvalancheReport {
            avalancheId: id,
            totalGrainsInvolved: av.totalGrainsInvolved,
            totalMovement: av.totalMovement,
            escaped: self.escaped - escaped_before,
            complete: leftover == 0,
            passes,
        };
        proof {
            assert(drop_run(*old(self), *self, report, trace));
        }
        Ok(report)
    }

    /// Recording a new grain changes no resident's record.
    pub proof fn lemma_residents_after_push(old_pile: Sandpile, new_pile: Sandpile)
        requires
            old_pile.residents_ok(),
            new_pile.lattice == old_pile.lattice,
            new_pile.registry.grains@.len() == old_pile.registry.grains@.len() + 1,
            forall|k: int| 0 <= k < old_pile.count() ==> new_pile.registry.grains@[k] == old_pile.registry.grains@[k],
        ensures
            new_pile.residents_ok(),
    {
        assert forall|i: int, j: int|
            0 <= i < new_pile.lattice.cells@.len() && 0 <= j < new_pile.lattice.cells@[i].grainIds@.len()
                implies new_pile.resident_ok(#[trigger] new_pile.lattice.cells@[i].grainIds@[j], i) by {
            let r = old_pile.lattice.cells@[i].grainIds@[j];
            assert(old_pile.resident_ok(r, i));
            assert(new_pile.grain(r) == old_pile.grain(r));
        }
    }
}

pub proof fn lemma_resident_total_prefix(cells: Seq<Location>, k: int)
    requires
        0 <= k <= cells.len(),
    ensures
        resident_total(cells.subrange(0, k)) <= resident_total(cells),
    decreases cells.len(),
{
    if k == cells.len() {
        assert(cells.subrange(0, k) =~= cells);
    } else {
        lemma_resident_total_prefix(cells.drop_last(), k);
        assert(cells.drop_last().subrange(0, k) =~= cells.subrange(0, k));
    }
}

impl Sandpile {
    /// Grains resident over all cells.
    pub fn residentTotal(&self) -> (r: usize)
        requires
            self.wf(),
        ensures
            r == resident_total(self.lattice.cells@),
    {
        let cells = &self.lattice.cells;
        let mut sum: usize = 0;
        let mut i: usize = 0;
        proof {
            lemma_resident_total_nonneg(cells@);
            assert(cells@.subrange(0, 0) =~= Seq::<Location>::empty());
        }
        while i < cells.len()
            invariant
                self.wf(),
                cells == &self.lattice.cells,
                i <= cells@.len(),
                sum == resident_total(cells@.subrange(0, i as int)),
            decreases cells@.len() - i,
        {
            proof {
                let next = cells@.subrange(0, i + 1);
                assert(next.drop_last() =~= cells@.subrange(0, i as int));
                lemma_resident_total_prefix(cells@, i + 1);
                lemma_resident_total_nonneg(cells@);
            }
            sum = sum + cells[i].grainIds.len();
            i = i + 1;
        }
        assert(cells@.subrange(0, cells@.len() as int) =~= cells@);
        sum
    }
}

impl Lattice {
    /// Occupancy for display: one row per `(z, y)`, highest level first and `y`
    /// ascending within a level; entry `x` of a row is the number of grains in
    /// cell `(x, y, z)`.
    pub fn occupancyRows(&self) -> (rows: Vec<Vec<usize>>)
        requires
            self.wf(),
        ensures
            rows@.len() == self.z_size * self.y_size,
            forall|k: int| 0 <= k < rows@.len() ==> (#[trigger] rows@[k])@.len() == self.x_size,
            forall|k: int, x: int|
                0 <= k < rows@.len() && 0 <= x < self.x_size ==> #[trigger] rows@[k]@[x]
                    == self.cell(x, k % self.y_size as int, self.z_size - 1 - k / self.y_size as int).grainIds@.len(),
    {
        let ys = self.y_size;
        let mut rows: Vec<Vec<usize>> = Vec::new();
        let mut level = self.z_size;
        while level > 0
            invariant
                self.wf(),
                ys == self.y_size,
                0 <= level <= self.z_size,
                rows@.len() == (self.z_size - level) * ys,
                forall|k: int| 0 <= k < rows@.len() ==> (#[trigger] rows@[k])@.len() == self.x_size,
                forall|k: int, x: int|
                    0 <= k < rows@.len() && 0 <= x < self.x_size ==> #[trigger] rows@[k]@[x]
                        == self.cell(x, k % ys as int, self.z_size - 1 - k / ys as int).grainIds@.len(),
            decreases level,
        {
            let z = level - 1;
            let mut y: i32 = 0;
            while y < ys
                invariant
                    self.wf(),
                    ys == self.y_size,
                    0 <= z < self.z_size,
                    0 <= y <= ys,
                    rows@.len() == (self.z_size - 1 - z) * ys + y,
                    forall|k: int| 0 <= k < rows@.len() ==> (#[trigger] rows@[k])@.len() == self.x_size,
                    forall|k: int, x: int|
                        0 <= k < rows@.len() && 0 <= x < self.x_size ==> #[trigger] rows@[k]@[x]
                            == self.cell(x, k % ys as int, self.z_size - 1 - k / ys as int).grainIds@.len(),
                decreases ys - y,
            {
                let mut row: Vec<usize> = Vec::new();
                let mut x: i32 = 0;
                while x < self.x_size
                    invariant
                        self.wf(),
                        0 <= z < self.z_size,
                        0 <= y < self.y_size,
                        0 <= x <= self.x_size,
                        row@.len() == x,
                        forall|a: int| 0 <= a < x ==> #[trigger] row@[a] == self.cell(a, y as int, z as int).grainIds@.len(),
                    decreases self.x_size - x,
                {
                    let i = self.index(x, y, z);
                    row.push(self.cells[i].grainIds.len());
                    x = x + 1;
                }
                let ghost k = rows@.len() as int;
                proof {
                    lemma_fundamental_div_mod_converse(k, ys as int, (self.z_size - 1 - z) as int, y as int);
                }
                rows.push(row);
                y = y + 1;
            }
            assert((self.z_size - 1 - z) * ys + ys == (self.z_size - z) * ys) by (nonlinear_arith);
            level = level - 1;
        }
        rows
    }
}

} // verus!
