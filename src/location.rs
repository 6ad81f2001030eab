use vstd::arithmetic::div_mod::lemma_fundamental_div_mod_converse;
use vstd::prelude::*;

use crate::constants::{ALPHA_AVALANCHE_SIZE, ALPHA_EXTRA_ENERGY, ALPHA_UNIT, BASE_AVALANCHE_SIZE};
use crate::draws::{jitter, magnitude_count, sat_add, Variates};
use crate::error::SandpileError;
use crate::grain::{Grain, GrainState};

verus! {

/// One addressable point of the lattice.
pub struct Location {
    pub id: u32,
    pub x: i32,
    pub y: i32,
    pub z: i32,
    /// Most grains the cell holds while the pile is stable.
    pub capacity: usize,
    /// Resident grains, most recent last.
    pub grainIds: Vec<u32>,
    /// Most perturbation energy the cell tolerates before it topples.
    pub resilience: usize,
}

/// The fixed-size grid of cells; cell `(x, y, z)` is stored at `index_of(x, y, z)`.
pub struct Lattice {
    pub x_size: i32,
    pub y_size: i32,
    pub z_size: i32,
    pub cells: Vec<Location>,
}

/// A cell that is empty space outside the pile and never holds a grain.
pub open spec fn is_inert(c: Location) -> bool {
    c.capacity == 0 && c.resilience == 0
}

/// Two values of one cell agree on everything but the resident grains.
pub open spec fn same_frame(a: Location, b: Location) -> bool {
    &&& a.id == b.id
    &&& a.x == b.x
    &&& a.y == b.y
    &&& a.z == b.z
    &&& a.capacity == b.capacity
    &&& a.resilience == b.resilience
}

/// `out` lists, most recent first, the grains that went from `before`, leaving `after`.
pub open spec fn sheds(before: Seq<u32>, after: Seq<u32>, out: Seq<u32>) -> bool {
    &&& out.len() <= before.len()
    &&& after == before.subrange(0, before.len() - out.len())
    &&& forall|t: int| 0 <= t < out.len() ==> #[trigger] out[t] == before[before.len() - 1 - t]
}

/// Energy of a perturbation: the incoming energy plus the drawn extra energy.
pub open spec fn perturbation_energy(incoming: usize, extra_draw: i64) -> int {
    sat_add(incoming as int, jitter(extra_draw) as int)
}

/// Whether a cell topples under a perturbation: the energy exceeds its
/// resilience and the cell is above ground.
pub open spec fn topples(c: Location, incoming: usize, extra_draw: i64) -> bool {
    perturbation_energy(incoming, extra_draw) > c.resilience && c.z > 0
}

/// Grains a toppling cell sheds: the base size plus the drawn jitter, at most
/// what the cell holds.
pub open spec fn avalanche_size(size_draw: i64, resident: int) -> int {
    let wanted = sat_add(BASE_AVALANCHE_SIZE as int, jitter(size_draw) as int);
    if wanted < resident {
        wanted
    } else {
        resident
    }
}

/// The nine positions one level below `(x, y, z)` within Chebyshev distance 1, x-major.
pub open spec fn lower_offsets(x: int, y: int, z: int) -> Seq<(i32, i32, i32)> {
    Seq::new(9, |k: int| ((x + k / 3 - 1) as i32, (y + k % 3 - 1) as i32, (z - 1) as i32))
}

impl Lattice {
    pub open spec fn in_bounds(&self, x: int, y: int, z: int) -> bool {
        &&& 0 <= x < self.x_size
        &&& 0 <= y < self.y_size
        &&& 0 <= z < self.z_size
    }

    pub open spec fn contains_coord(&self, c: (i32, i32, i32)) -> bool {
        self.in_bounds(c.0 as int, c.1 as int, c.2 as int)
    }

    pub open spec fn index_of(&self, x: int, y: int, z: int) -> int {
        (x * self.y_size + y) * self.z_size + z
    }

    pub open spec fn cell_count(&self) -> int {
        self.x_size * self.y_size * self.z_size
    }

    /// The inverted-pyramid region that may hold grains: it narrows by one cell
    /// on each side per level.
    pub open spec fn in_footprint(&self, x: int, y: int, z: int) -> bool {
        &&& z <= x <= self.x_size - 1 - z
        &&& z <= y <= self.y_size - 1 - z
    }

    pub open spec fn cell(&self, x: int, y: int, z: int) -> Location {
        self.cells@[self.index_of(x, y, z)]
    }

    /// Cell `(x, y, z)` is stored at its index, knows its coordinate, and is
    /// empty space when it lies outside the footprint.
    pub open spec fn placed(&self, x: int, y: int, z: int) -> bool {
        let i = self.index_of(x, y, z);
        &&& 0 <= i < self.cells@.len()
        &&& self.cells@[i].x == x
        &&& self.cells@[i].y == y
        &&& self.cells@[i].z == z
        &&& !self.in_footprint(x, y, z) ==> is_inert(self.cells@[i])
    }

    pub open spec fn dims_ok(&self) -> bool {
        &&& 1 <= self.x_size
        &&& 1 <= self.y_size
        &&& 1 <= self.z_size
        &&& self.cell_count() <= u32::MAX
    }

    pub open spec fn wf(&self) -> bool {
        &&& self.dims_ok()
        &&& self.cells@.len() == self.cell_count()
        &&& forall|x: int, y: int, z: int| #[trigger] self.in_bounds(x, y, z) ==> self.placed(x, y, z)
        &&& forall|i: int|
            0 <= i < self.cells@.len() ==> (#[trigger] self.cells@[i]).grainIds@.len()
                <= self.cells@[i].capacity
    }

    /// A grain at `(x, y, z)` free-falls: the cell below is empty space or has room.
    pub open spec fn falls_through(&self, x: int, y: int, z: int) -> bool {
        z > 0 && {
            let c = self.cell(x, y, z - 1);
            is_inert(c) || c.grainIds@.len() < c.capacity
        }
    }

    /// The in-bounds cells below `(x, y, z)` within Chebyshev distance 1; none at ground level.
    pub open spec fn lower_neighborhood(&self, x: int, y: int, z: int) -> Seq<(i32, i32, i32)> {
        if z == 0 {
            Seq::empty()
        } else {
            lower_offsets(x, y, z).filter(|c: (i32, i32, i32)| self.contains_coord(c))
        }
    }

    /// Whether a cell can take one more grain (never true of empty space).
    pub open spec fn has_room(c: Location) -> bool {
        c.grainIds@.len() < c.capacity
    }

    /// The lower neighbours of `(x, y, z)` that can take a grain, in neighbourhood order.
    pub open spec fn open_lower(&self, x: int, y: int, z: int) -> Seq<(i32, i32, i32)> {
        self.lower_neighborhood(x, y, z).filter(
            |c: (i32, i32, i32)| Lattice::has_room(self.cell(c.0 as int, c.1 as int, c.2 as int)),
        )
    }

    /// Whether column `(x, y)` lies on the outer edge of the lattice.
    pub open spec fn on_rim(&self, x: int, y: int) -> bool {
        x == 0 || x == self.x_size - 1 || y == 0 || y == self.y_size - 1
    }

    /// The cells of column `(x, y)` from level `z` up to the top.
    pub open spec fn ceiling_column(&self, x: int, y: int, z: int) -> Seq<(i32, i32, i32)> {
        Seq::new((self.z_size - z) as nat, |k: int| (x as i32, y as i32, (z + k) as i32))
    }

    pub proof fn lemma_index_bounds(&self, x: int, y: int, z: int)
        requires
            self.dims_ok(),
            self.in_bounds(x, y, z),
        ensures
            0 <= x * self.y_size,
            x * self.y_size + y < self.x_size * self.y_size,
            self.x_size * self.y_size <= self.cell_count(),
            0 <= (x * self.y_size + y) * self.z_size,
            0 <= self.index_of(x, y, z) < self.cell_count(),
    {
        let xs = self.x_size as int;
        let ys = self.y_size as int;
        let zs = self.z_size as int;
        assert(0 <= x * ys) by (nonlinear_arith)
            requires
                0 <= x,
                0 <= ys,
        ;
        assert(x * ys + y < xs * ys) by (nonlinear_arith)
            requires
                0 <= x < xs,
                0 <= y < ys,
        ;
        let a = x * ys + y;
        let p = xs * ys;
        assert(p <= p * zs) by (nonlinear_arith)
            requires
                0 <= p,
                1 <= zs,
        ;
        assert(0 <= a * zs && a * zs + z < p * zs) by (nonlinear_arith)
            requires
                0 <= a < p,
                0 <= z < zs,
        ;
    }

    pub proof fn lemma_index_injective(&self, x1: int, y1: int, z1: int, x2: int, y2: int, z2: int)
        requires
            self.dims_ok(),
            self.in_bounds(x1, y1, z1),
            self.in_bounds(x2, y2, z2),
            self.index_of(x1, y1, z1) == self.index_of(x2, y2, z2),
        ensures
            x1 == x2,
            y1 == y2,
            z1 == z2,
    {
        let ys = self.y_size as int;
        let zs = self.z_size as int;
        let i = self.index_of(x1, y1, z1);
        let a1 = x1 * ys + y1;
        let a2 = x2 * ys + y2;
        lemma_fundamental_div_mod_converse(i, zs, a1, z1);
        lemma_fundamental_div_mod_converse(i, zs, a2, z2);
        lemma_fundamental_div_mod_converse(a1, ys, x1, y1);
        lemma_fundamental_div_mod_converse(a1, ys, x2, y2);
    }

    /// Position of cell `(x, y, z)` in `cells`.
    pub fn index(&self, x: i32, y: i32, z: i32) -> (r: usize)
        requires
            self.wf(),
            self.in_bounds(x as int, y as int, z as int),
        ensures
            r as int == self.index_of(x as int, y as int, z as int),
            r < self.cells@.len(),
    {
        proof {
            self.lemma_index_bounds(x as int, y as int, z as int);
        }
        let a = x as usize * self.y_size as usize + y as usize;
        a * self.z_size as usize + z as usize
    }

    /// Whether `(x, y, z)` lies inside the configured extents.
    pub fn is_in_bounds(&self, x: i32, y: i32, z: i32) -> (r: bool)
        ensures
            r == self.in_bounds(x as int, y as int, z as int),
    {
        0 <= x && x < self.x_size && 0 <= y && y < self.y_size && 0 <= z && z < self.z_size
    }

    /// Number of grains resident at `(x, y, z)`.
    pub fn numberOfGrains(&self, x: i32, y: i32, z: i32) -> (r: Result<usize, SandpileError>)
        requires
            self.wf(),
        ensures
            self.in_bounds(x as int, y as int, z as int) ==> r == Ok::<usize, SandpileError>(
                self.cell(x as int, y as int, z as int).grainIds@.len() as usize,
            ),
            !self.in_bounds(x as int, y as int, z as int) ==> r == Err::<usize, SandpileError>(
                SandpileError::OutOfBounds,
            ),
    {
        if self.is_in_bounds(x, y, z) {
            let i = self.index(x, y, z);
            Ok(self.cells[i].grainIds.len())
        } else {
            Err(SandpileError::OutOfBounds)
        }
    }
}

impl Location {
    /// A cell of the pile: base thresholds plus the drawn jitter, saturated.
    pub fn new(
        id: u32,
        x: i32,
        y: i32,
        z: i32,
        base_capacity: usize,
        base_resilience: usize,
        capacity_draw: i64,
        resilience_draw: i64,
    ) -> (r: Location)
        ensures
            r.id == id && r.x == x && r.y == y && r.z == z,
            r.capacity == sat_add(base_capacity as int, jitter(capacity_draw) as int),
            r.resilience == sat_add(base_resilience as int, jitter(resilience_draw) as int),
            r.grainIds@.len() == 0,
    {
        let capacity = base_capacity.saturating_add(magnitude_count(capacity_draw));
        let resilience = base_resilience.saturating_add(magnitude_count(resilience_draw));
        Location { id, x, y, z, capacity, grainIds: Vec::new(), resilience }
    }

    /// A cell of empty space outside the pile.
    pub fn emptySpace(id: u32, x: i32, y: i32, z: i32) -> (r: Location)
        ensures
            r.id == id && r.x == x && r.y == y && r.z == z,
            is_inert(r),
            r.grainIds@.len() == 0,
    {
        Location { id, x, y, z, capacity: 0, grainIds: Vec::new(), resilience: 0 }
    }

    /// Number of resident grains.
    pub fn getNumberOfGrains(&self) -> (r: usize)
        ensures
            r == self.grainIds@.len(),
    {
        self.grainIds.len()
    }

    /// Build the lattice. A cell inside the footprint gets the base capacity and
    /// resilience plus one jitter draw each (exponent `alpha_capacity`, then
    /// `alpha_resilience`); a cell outside it is empty space.
    pub fn initializeLocations<R: Variates>(
        x_size: i32,
        y_size: i32,
        z_size: i32,
        base_capacity: usize,
        base_resilience: usize,
        alpha_capacity: u32,
        alpha_resilience: u32,
        rnd: &mut R,
    ) -> (r: Result<Lattice, SandpileError>)
        requires
            x_size >= 1 && y_size >= 1 && z_size >= 1 ==> x_size * y_size * z_size <= u32::MAX,
        ensures
            (x_size < 1 || y_size < 1 || z_size < 1 || alpha_capacity <= ALPHA_UNIT
                || alpha_resilience <= ALPHA_UNIT) <==> r is Err,
            r is Err ==> r == Err::<Lattice, SandpileError>(SandpileError::InvalidParameter),
            r matches Ok(l) ==> {
                &&& l.wf()
                &&& l.x_size == x_size && l.y_size == y_size && l.z_size == z_size
                &&& forall|i: int| 0 <= i < l.cells@.len() ==> (#[trigger] l.cells@[i]).grainIds@.len() == 0
                &&& forall|i: int| 0 <= i < l.cells@.len() ==> (#[trigger] l.cells@[i]).id == i
                &&& forall|x: int, y: int, z: int|
                    #[trigger] l.in_bounds(x, y, z) && l.in_footprint(x, y, z) ==> {
                        &&& l.cell(x, y, z).capacity >= base_capacity
                        &&& l.cell(x, y, z).resilience >= base_resilience
                    }
            },
    {
        if x_size < 1 || y_size < 1 || z_size < 1 || alpha_capacity <= ALPHA_UNIT || alpha_resilience
            <= ALPHA_UNIT {
            return Err(SandpileError::InvalidParameter);
        }
        let mut lattice = Lattice { x_size, y_size, z_size, cells: Vec::new() };
        assert(0 * y_size * z_size == 0) by (nonlinear_arith);
        let mut x: i32 = 0;
        while x < x_size
            invariant
                lattice.x_size == x_size && lattice.y_size == y_size && lattice.z_size == z_size,
                lattice.dims_ok(),
                0 <= x <= x_size,
                lattice.cells@.len() == x * y_size * z_size,
                Self::built(lattice, base_capacity, base_resilience),
            decreases x_size - x,
        {
            let mut y: i32 = 0;
            while y < y_size
                invariant
                    lattice.x_size == x_size && lattice.y_size == y_size && lattice.z_size == z_size,
                    lattice.dims_ok(),
                    0 <= x < x_size,
                    0 <= y <= y_size,
                    lattice.cells@.len() == (x * y_size + y) * z_size,
                    Self::built(lattice, base_capacity, base_resilience),
                decreases y_size - y,
            {
                let mut z: i32 = 0;
                while z < z_size
                    invariant
                        lattice.x_size == x_size && lattice.y_size == y_size && lattice.z_size == z_size,
                        lattice.dims_ok(),
                        0 <= x < x_size,
                        0 <= y < y_size,
                        0 <= z <= z_size,
                        lattice.cells@.len() == (x * y_size + y) * z_size + z,
                        Self::built(lattice, base_capacity, base_resilience),
                    decreases z_size - z,
                {
                    proof {
                        lattice.lemma_index_bounds(x as int, y as int, z as int);
                    }
                    let id = lattice.cells.len() as u32;
                    let location = if x >= z && x <= x_size - z - 1 && y >= z && y <= y_size - z - 1 {
                        let capacity_draw = rnd.order_of_magnitude(alpha_capacity);
                        let resilience_draw = rnd.order_of_magnitude(alpha_resilience);
                        Location::new(id, x, y, z, base_capacity, base_resilience, capacity_draw, resilience_draw)
                    } else {
                        Location::emptySpace(id, x, y, z)
                    };
                    let ghost before = lattice;
                    lattice.cells.push(location);
                    proof {
                        assert forall|a: int, b: int, c: int|
                            #[trigger] lattice.in_bounds(a, b, c) && lattice.index_of(a, b, c)
                                < lattice.cells@.len() implies lattice.placed(a, b, c) && (
                            lattice.in_footprint(a, b, c) ==> {
                                &&& lattice.cell(a, b, c).capacity >= base_capacity
                                &&& lattice.cell(a, b, c).resilience >= base_resilience
                            }) by {
                            if lattice.index_of(a, b, c) == before.cells@.len() {
                                lattice.lemma_index_injective(a, b, c, x as int, y as int, z as int);
                            } else {
                                assert(before.in_bounds(a, b, c));
                            }
                        }
                    }
                    z = z + 1;
                }
                assert((x * y_size + y) * z_size + z_size == (x * y_size + (y + 1)) * z_size)
                    by (nonlinear_arith);
                y = y + 1;
            }
            assert((x * y_size + y_size) * z_size == (x + 1) * y_size * z_size) by (nonlinear_arith);
            x = x + 1;
        }
        proof {
            assert forall|a: int, b: int, c: int| #[trigger] lattice.in_bounds(a, b, c) implies lattice.placed(a, b, c) by {
                lattice.lemma_index_bounds(a, b, c);
            }
        }
        Ok(lattice)
    }

    /// Every cell built so far sits at its index, is empty, respects the
    /// footprint, and meets the base thresholds inside it.
    pub open spec fn built(l: Lattice, base_capacity: usize, base_resilience: usize) -> bool {
        &&& forall|i: int| 0 <= i < l.cells@.len() ==> (#[trigger] l.cells@[i]).grainIds@.len() == 0
        &&& forall|i: int| 0 <= i < l.cells@.len() ==> (#[trigger] l.cells@[i]).id == i
        &&& forall|a: int, b: int, c: int|
            #[trigger] l.in_bounds(a, b, c) && l.index_of(a, b, c) < l.cells@.len() ==> l.placed(a, b, c) && (
            l.in_footprint(a, b, c) ==> {
                &&& l.cell(a, b, c).capacity >= base_capacity
                &&& l.cell(a, b, c).resilience >= base_resilience
            })
    }

    /// The cell at `(x, y, z)`, or nothing when the coordinate is out of bounds.
    pub fn getLocationByXyz(lattice: &Lattice, x: i32, y: i32, z: i32) -> (r: Option<&Location>)
        requires
            lattice.wf(),
        ensures
            r.is_some() == lattice.in_bounds(x as int, y as int, z as int),
            r.is_some() ==> *r.unwrap() == lattice.cell(x as int, y as int, z as int),
    {
        if lattice.is_in_bounds(x, y, z) {
            let i = lattice.index(x, y, z);
            Some(&lattice.cells[i])
        } else {
            None
        }
    }

    /// Store this cell in the lattice at its coordinate, replacing the old value.
    /// Its thresholds must be the ones the lattice already holds there.
    pub fn saveLocation(self, lattice: &mut Lattice)
        requires
            old(lattice).wf(),
            old(lattice).in_bounds(self.x as int, self.y as int, self.z as int),
            same_frame(self, old(lattice).cell(self.x as int, self.y as int, self.z as int)),
            self.grainIds@.len() <= self.capacity,
        ensures
            final(lattice).wf(),
            final(lattice).x_size == old(lattice).x_size,
            final(lattice).y_size == old(lattice).y_size,
            final(lattice).z_size == old(lattice).z_size,
            final(lattice).cells@ == old(lattice).cells@.update(
                old(lattice).index_of(self.x as int, self.y as int, self.z as int),
                self,
            ),
    {
        let i = lattice.index(self.x, self.y, self.z);
        lattice.cells.set(i, self);
        proof {
            assert forall|a: int, b: int, c: int| #[trigger] lattice.in_bounds(a, b, c) implies lattice.placed(a, b, c) by {
                assert(old(lattice).in_bounds(a, b, c));
            }
        }
    }

    /// The in-bounds cells one level below `(x, y, z)` within Chebyshev distance 1,
    /// clamped at the edges; none at ground level.
    pub fn getLowerNeighborhood(lattice: &Lattice, x: i32, y: i32, z: i32) -> (r: Vec<(i32, i32, i32)>)
        requires
            lattice.in_bounds(x as int, y as int, z as int),
        ensures
            r@ == lattice.lower_neighborhood(x as int, y as int, z as int),
            forall|k: int| 0 <= k < r@.len() ==> {
                &&& lattice.contains_coord(#[trigger] r@[k])
                &&& r@[k].2 == z - 1
            },
    {
        let mut found: Vec<(i32, i32, i32)> = Vec::with_capacity(9);
        if z == 0 {
            return found;
        }
        let ghost pred = |c: (i32, i32, i32)| lattice.contains_coord(c);
        let ghost offsets = lower_offsets(x as int, y as int, z as int);
        let mut k: i32 = 0;
        while k < 9
            invariant
                lattice.in_bounds(x as int, y as int, z as int),
                z > 0,
                0 <= k <= 9,
                pred == (|c: (i32, i32, i32)| lattice.contains_coord(c)),
                offsets == lower_offsets(x as int, y as int, z as int),
                found@ == offsets.subrange(0, k as int).filter(pred),
                forall|m: int| 0 <= m < found@.len() ==> {
                    &&& lattice.contains_coord(#[trigger] found@[m])
                    &&& found@[m].2 == z - 1
                },
            decreases 9 - k,
        {
            let cx = x - 1 + k / 3;
            let cy = y - 1 + k % 3;
            proof {
                let s = offsets.subrange(0, k as int);
                assert(offsets.subrange(0, k + 1) =~= s.push(offsets[k as int]));
                assert(offsets[k as int] == (cx, cy, (z - 1) as i32));
                s.lemma_filter_push(offsets[k as int], pred);
            }
            if 0 <= cx && cx < lattice.x_size && 0 <= cy && cy < lattice.y_size {
                found.push((cx, cy, z - 1));
            }
            k = k + 1;
        }
        proof {
            assert(offsets.subrange(0, 9) =~= offsets);
        }
        found
    }

    /// The cells of column `(x, y)` from level `z` up to the top of the lattice.
    pub fn getCeilingLocations(lattice: &Lattice, x: i32, y: i32, z: i32) -> (r: Vec<(i32, i32, i32)>)
        requires
            lattice.in_bounds(x as int, y as int, z as int),
        ensures
            r@ == lattice.ceiling_column(x as int, y as int, z as int),
    {
        let mut column: Vec<(i32, i32, i32)> = Vec::new();
        let mut level = z;
        while level < lattice.z_size
            invariant
                lattice.in_bounds(x as int, y as int, z as int),
                z <= level <= lattice.z_size,
                column@ =~= lattice.ceiling_column(x as int, y as int, z as int).subrange(0, level - z),
            decreases lattice.z_size - level,
        {
            column.push((x, y, level));
            level = level + 1;
        }
        column
    }
}

impl Location {
    /// A grain arrives. With room, the cell keeps it: the grain rests with no
    /// energy. Without room, the grain rolls on with its energy capped at 1.
    /// Returns the grain's energy before the impact.
    pub fn incomingGrain(&mut self, grain: &mut Grain) -> (energy: usize)
        ensures
            energy == old(grain).energy,
            same_frame(*final(self), *old(self)),
            old(self).grainIds@.len() < old(self).capacity ==> {
                &&& final(self).grainIds@ == old(self).grainIds@.push(old(grain).id)
                &&& *final(grain) == (Grain { energy: 0, state: GrainState::Stationary, ..*old(grain) })
            },
            old(self).grainIds@.len() >= old(self).capacity ==> {
                &&& final(self).grainIds@ == old(self).grainIds@
                &&& *final(grain) == (Grain {
                    energy: if old(grain).energy > 1 { 1 } else { old(grain).energy },
                    state: GrainState::Rolling,
                    ..*old(grain)
                })
            },
    {
        let energy = grain.energy;
        if self.grainIds.len() < self.capacity {
            self.grainIds.push(grain.id);
            grain.state = GrainState::Stationary;
            grain.energy = 0;
        } else {
            grain.state = GrainState::Rolling;
            if grain.energy > 1 {
                grain.energy = 1;
            }
        }
        energy
    }

    /// Remove the `count` most recent residents and return them, most recent first.
    pub fn shed(&mut self, count: usize) -> (out: Vec<u32>)
        requires
            count <= old(self).grainIds@.len(),
        ensures
            out@.len() == count,
            sheds(old(self).grainIds@, final(self).grainIds@, out@),
            same_frame(*final(self), *old(self)),
    {
        let ghost before = self.grainIds@;
        let mut out: Vec<u32> = Vec::new();
        let mut t: usize = 0;
        while t < count
            invariant
                count <= before.len(),
                t <= count,
                same_frame(*self, *old(self)),
                before == old(self).grainIds@,
                out@.len() == t,
                self.grainIds@ == before.subrange(0, before.len() - t),
                forall|u: int| 0 <= u < t ==> #[trigger] out@[u] == before[before.len() - 1 - u],
            decreases count - t,
        {
            let id = self.grainIds.pop().unwrap();
            out.push(id);
            t = t + 1;
            assert(self.grainIds@ =~= before.subrange(0, before.len() - t));
        }
        out
    }

    /// The perturbation check with the draws given. The energy is the incoming
    /// energy plus the extra-energy draw; the cell topples when it exceeds the
    /// resilience and the cell is above ground. A toppling cell sheds the base
    /// avalanche size plus the size draw, at most all it holds, most recent first.
    /// `None` when the cell does not topple.
    pub fn perturbWith(&mut self, incomingGrainEnergy: usize, extra_draw: i64, size_draw: i64) -> (r: Option<
        Vec<u32>,
    >)
        ensures
            r.is_some() == topples(*old(self), incomingGrainEnergy, extra_draw),
            same_frame(*final(self), *old(self)),
            r matches Some(out) ==> {
                &&& out@.len() == avalanche_size(size_draw, old(self).grainIds@.len() as int)
                &&& sheds(old(self).grainIds@, final(self).grainIds@, out@)
            },
            r is None ==> final(self).grainIds@ == old(self).grainIds@,
    {
        let total = incomingGrainEnergy.saturating_add(magnitude_count(extra_draw));
        if self.resilience < total && self.z > 0 {
            let mut size = BASE_AVALANCHE_SIZE.saturating_add(magnitude_count(size_draw));
            if self.grainIds.len() < size {
                size = self.grainIds.len();
            }
            Some(self.shed(size))
        } else {
            None
        }
    }

    /// The perturbation check of an impact: draws the extra energy (exponent
    /// `ALPHA_EXTRA_ENERGY`) and the avalanche size (exponent
    /// `ALPHA_AVALANCHE_SIZE`), then acts as `perturbWith` on those draws.
    /// Whatever the draws, a ground-level cell never topples, a cell above
    /// ground whose resilience the incoming energy alone exceeds always
    /// topples, and a toppling cell sheds at least the base size (or all it
    /// holds) and no more than it holds.
    pub fn purtubation<R: Variates>(&mut self, incomingGrainEnergy: usize, rnd: &mut R) -> (r: Option<
        Vec<u32>,
    >)
        ensures
            same_frame(*final(self), *old(self)),
            exists|extra_draw: i64| r.is_some() == #[trigger] topples(*old(self), incomingGrainEnergy, extra_draw),
            r matches Some(out) ==> exists|size_draw: i64|
                out@.len() == #[trigger] avalanche_size(size_draw, old(self).grainIds@.len() as int),
            r is Some ==> old(self).z > 0,
            old(self).z > 0 && incomingGrainEnergy > old(self).resilience ==> r is Some,
            r matches Some(out) ==> sheds(old(self).grainIds@, final(self).grainIds@, out@),
            r matches Some(out) ==> out@.len() >= if BASE_AVALANCHE_SIZE < old(self).grainIds@.len() {
                BASE_AVALANCHE_SIZE as int
            } else {
                old(self).grainIds@.len() as int
            },
            r is None ==> final(self).grainIds@ == old(self).grainIds@,
    {
        let extra_draw = rnd.order_of_magnitude(ALPHA_EXTRA_ENERGY);
        let size_draw = rnd.order_of_magnitude(ALPHA_AVALANCHE_SIZE);
        let r = self.perturbWith(incomingGrainEnergy, extra_draw, size_draw);
        assert(r.is_some() == topples(*old(self), incomingGrainEnergy, extra_draw));
        if let Some(out) = &r {
            assert(out@.len() == avalanche_size(size_draw, old(self).grainIds@.len() as int));
        }
        r
    }
}

impl Location {
    /// The lower neighbours of `(x, y, z)` with room for a grain, in neighbourhood order.
    pub fn openLowerNeighbors(lattice: &Lattice, x: i32, y: i32, z: i32) -> (r: Vec<(i32, i32, i32)>)
        requires
            lattice.wf(),
            lattice.in_bounds(x as int, y as int, z as int),
        ensures
            r@ == lattice.open_lower(x as int, y as int, z as int),
            forall|k: int| 0 <= k < r@.len() ==> lattice.contains_coord(#[trigger] r@[k]) && r@[k].2 == z - 1,
    {
        let nbrs = Location::getLowerNeighborhood(lattice, x, y, z);
        let ghost pred = |c: (i32, i32, i32)| Lattice::has_room(lattice.cell(c.0 as int, c.1 as int, c.2 as int));
        let mut open: Vec<(i32, i32, i32)> = Vec::new();
        let mut k: usize = 0;
        while k < nbrs.len()
            invariant
                lattice.wf(),
                k <= nbrs@.len(),
                nbrs@ == lattice.lower_neighborhood(x as int, y as int, z as int),
                forall|m: int| 0 <= m < nbrs@.len() ==> lattice.contains_coord(#[trigger] nbrs@[m]) && nbrs@[m].2 == z - 1,
                pred == (|c: (i32, i32, i32)| Lattice::has_room(lattice.cell(c.0 as int, c.1 as int, c.2 as int))),
                open@ == nbrs@.subrange(0, k as int).filter(pred),
                forall|m: int| 0 <= m < open@.len() ==> lattice.contains_coord(#[trigger] open@[m]) && open@[m].2 == z - 1,
            decreases nbrs@.len() - k,
        {
            let c = nbrs[k];
            assert(lattice.contains_coord(nbrs@[k as int]));
            let j = lattice.index(c.0, c.1, c.2);
            proof {
                let s = nbrs@.subrange(0, k as int);
                assert(nbrs@.subrange(0, k + 1) =~= s.push(c));
                s.lemma_filter_push(c, pred);
            }
            if lattice.cells[j].grainIds.len() < lattice.cells[j].capacity {
                open.push(c);
            }
            k = k + 1;
        }
        assert(nbrs@.subrange(0, nbrs@.len() as int) =~= nbrs@);
        open
    }
}

} // verus!
