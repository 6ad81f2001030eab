use vstd::prelude::*;

use crate::constants::{MAX_ROLL_RETRIES, TERMINAL_FREE_FALL_SPEED};
use crate::draws::{jitter, magnitude_count, sat_add};
use crate::location::{Lattice, Location};

verus! {

/// Lifecycle of a grain while an avalanche processes it.
#[derive(Clone, Copy, Debug, PartialEq, Eq, Structural)]
pub enum GrainState {
    Unknown,
    Falling,
    Impact,
    Rolling,
    Stationary,
}

/// One unit of material: its identity, position, energy and lifecycle state.
#[derive(Clone, Copy, Debug, PartialEq, Eq, Structural)]
pub struct Grain {
    pub id: u32,
    pub x: i32,
    pub y: i32,
    pub z: i32,
    /// Proxy for speed: 0 at rest, grows while falling, passed on at impact.
    pub energy: usize,
    pub state: GrainState,
    /// Consecutive passes this grain has rolled without finding an open lower neighbour.
    pub stalls: usize,
}

/// What a rolling grain does next.
#[derive(Clone, Copy, Debug, PartialEq, Eq, Structural)]
pub enum RollMove {
    /// Move into this lower neighbour, which has room, and impact there.
    To(i32, i32, i32),
    /// Fall off the edge of the lattice.
    Escape,
    /// Stay put this pass and try again later.
    Wait,
    /// Come to rest in the grain's own cell, which has room.
    Settle,
    /// Climb one level, onto the full cell it is in.
    Climb,
}

/// The roll rule. A grain with open lower neighbours moves into the one
/// `choice` picks. Otherwise a grain on the rim at ground level escapes; a grain
/// that has waited fewer than `MAX_ROLL_RETRIES` passes waits; then it settles
/// in its own cell if that has room, else climbs one level, else (at the top)
/// escapes. This last case is deliberate: a jammed grain on a full cell of the
/// top level has nowhere inside the lattice to go, and letting it settle there
/// would break the capacity bound, so it leaves the pile and is counted as
/// escaped like a grain falling off the rim.
pub open spec fn roll_move(l: Lattice, g: Grain, choice: usize) -> RollMove {
    let open = l.open_lower(g.x as int, g.y as int, g.z as int);
    if open.len() > 0 {
        let c = open[choice as int % open.len() as int];
        RollMove::To(c.0, c.1, c.2)
    } else if g.z == 0 && l.on_rim(g.x as int, g.y as int) {
        RollMove::Escape
    } else if g.stalls < MAX_ROLL_RETRIES {
        RollMove::Wait
    } else if Lattice::has_room(l.cell(g.x as int, g.y as int, g.z as int)) {
        RollMove::Settle
    } else if g.z + 1 < l.z_size {
        RollMove::Climb
    } else {
        RollMove::Escape
    }
}

/// One landing coordinate: the centre of the axis offset by the drawn variance,
/// toward the low end when `direction` is even and the high end otherwise,
/// clamped to the axis.
pub open spec fn landing_coord(size: int, draw: i64, direction: usize) -> int {
    let c = size / 2;
    let v = jitter(draw) as int;
    if direction % 2 == 0 {
        c - if v < c { v } else { c }
    } else {
        c + if v < size - 1 - c { v } else { size - 1 - c }
    }
}

/// The grain after one step of free fall (see `Grain::fall`).
pub open spec fn fall_step(l: Lattice, g: Grain) -> Grain {
    if l.falls_through(g.x as int, g.y as int, g.z as int) {
        Grain {
            z: (g.z - 1) as i32,
            energy: if g.energy < TERMINAL_FREE_FALL_SPEED { (g.energy + 1) as usize } else { g.energy },
            ..g
        }
    } else {
        Grain { state: GrainState::Impact, ..g }
    }
}

/// The canonical record of every grain dropped so far; grain `i` is stored at index `i`.
pub struct GrainRegistry {
    pub grains: Vec<Grain>,
}

/// Whether a grain stands at the given coordinate.
pub open spec fn at_coordinate(g: Grain, x: int, y: int, z: int) -> bool {
    g.x == x && g.y == y && g.z == z
}

/// The predicate "stands at `(x, y, z)`".
pub open spec fn standing_at(x: int, y: int, z: int) -> spec_fn(Grain) -> bool {
    |g: Grain| at_coordinate(g, x, y, z)
}

impl GrainRegistry {
    pub open spec fn wf(&self) -> bool {
        &&& self.grains@.len() <= u32::MAX
        &&& forall|i: int| 0 <= i < self.grains@.len() ==> (#[trigger] self.grains@[i]).id == i
    }

    /// An empty registry.
    pub fn new() -> (r: GrainRegistry)
        ensures
            r.wf(),
            r.grains@.len() == 0,
    {
        GrainRegistry { grains: Vec::new() }
    }

    /// Number of grains recorded.
    pub fn len(&self) -> (r: usize)
        ensures
            r == self.grains@.len(),
    {
        self.grains.len()
    }
}

impl Grain {
    /// A new grain at rest in state `Unknown`, positioned where it is dropped.
    pub fn new(id: u32, x: i32, y: i32, z: i32) -> (r: Grain)
        ensures
            r.id == id,
            at_coordinate(r, x as int, y as int, z as int),
            r.energy == 0,
            r.state == GrainState::Unknown,
            r.stalls == 0,
    {
        Grain { id, x, y, z, energy: 0, state: GrainState::Unknown, stalls: 0 }
    }

    /// The grains recorded at a coordinate, in order of id.
    pub fn getGrainsByLocation(registry: &GrainRegistry, x: i32, y: i32, z: i32) -> (r: Vec<Grain>)
        ensures
            r@ == registry.grains@.filter(standing_at(x as int, y as int, z as int)),
    {
        let ghost pred = standing_at(x as int, y as int, z as int);
        let mut found: Vec<Grain> = Vec::new();
        let mut i: usize = 0;
        while i < registry.grains.len()
            invariant
                i <= registry.grains@.len(),
                pred == standing_at(x as int, y as int, z as int),
                found@ == registry.grains@.subrange(0, i as int).filter(pred),
            decreases registry.grains@.len() - i,
        {
            let g = registry.grains[i];
            proof {
                let s = registry.grains@.subrange(0, i as int);
                assert(registry.grains@.subrange(0, i + 1) =~= s.push(g));
                s.lemma_filter_push(g, pred);
                assert(pred(g) == (g.x == x && g.y == y && g.z == z));
            }
            if g.x == x && g.y == y && g.z == z {
                found.push(g);
            }
            i = i + 1;
        }
        assert(registry.grains@.subrange(0, registry.grains@.len() as int) =~= registry.grains@);
        found
    }

    /// The record of grain `id`, if it has been dropped.
    pub fn getGrainById(registry: &GrainRegistry, id: u32) -> (r: Option<Grain>)
        ensures
            (id < registry.grains@.len()) == r.is_some(),
            r.is_some() ==> r.unwrap() == registry.grains@[id as int],
    {
        if (id as usize) < registry.grains.len() {
            Some(registry.grains[id as usize])
        } else {
            None
        }
    }

    /// Overwrite the record of this grain, which must already be recorded, with
    /// its current value. Grains enter the registry only through `addGrain`,
    /// which gives each the next id, so ids stay dense.
    pub fn saveGrain(&self, registry: &mut GrainRegistry)
        requires
            old(registry).wf(),
            self.id < old(registry).grains@.len(),
        ensures
            final(registry).wf(),
            final(registry).grains@ == old(registry).grains@.update(self.id as int, *self),
    {
        registry.grains.set(self.id as usize, *self);
    }

    /// Record a newly dropped grain, whose id is the next free one.
    pub fn addGrain(grain: Grain, registry: &mut GrainRegistry)
        requires
            old(registry).wf(),
            grain.id == old(registry).grains@.len(),
            grain.id < u32::MAX,
        ensures
            final(registry).wf(),
            final(registry).grains@ == old(registry).grains@.push(grain),
    {
        registry.grains.push(grain);
    }

    /// Add `energy`, saturating at `usize::MAX`.
    pub fn increaseEnergy(&mut self, energy: usize)
        ensures
            *final(self) == (Grain {
                energy: sat_add(old(self).energy as int, energy as int) as usize,
                ..*old(self)
            }),
    {
        self.energy = self.energy.saturating_add(energy);
    }

    /// Add one unit of energy, saturating at `usize::MAX`.
    pub fn incrementEnergy(&mut self)
        ensures
            *final(self) == (Grain { energy: sat_add(old(self).energy as int, 1) as usize, ..*old(self) }),
    {
        self.energy = self.energy.saturating_add(1);
    }

    /// One step of free fall. A grain above ground whose cell below is empty space
    /// or has free capacity drops one level and gains a unit of energy, up to
    /// `TERMINAL_FREE_FALL_SPEED`; otherwise the grain reaches `Impact` where it is.
    /// Returns whether the grain moved.
    pub fn fall(&mut self, lattice: &Lattice) -> (moved: bool)
        requires
            lattice.wf(),
            lattice.in_bounds(old(self).x as int, old(self).y as int, old(self).z as int),
        ensures
            moved == lattice.falls_through(old(self).x as int, old(self).y as int, old(self).z as int),
            *final(self) == fall_step(*lattice, *old(self)),
    {
        if self.z > 0 {
            let below = lattice.index(self.x, self.y, self.z - 1);
            let cell = &lattice.cells[below];
            if cell.capacity == 0 && cell.resilience == 0 || cell.grainIds.len() < cell.capacity {
                self.z = self.z - 1;
                if self.energy < TERMINAL_FREE_FALL_SPEED {
                    self.energy = self.energy + 1;
                }
                return true;
            }
        }
        self.state = GrainState::Impact;
        false
    }
}

impl Grain {
    /// Where a dropped grain appears: each horizontal coordinate is
    /// `landing_coord` of its axis, and the grain starts on the top level.
    pub fn determineInitialPosition(
        lattice: &Lattice,
        x_draw: i64,
        y_draw: i64,
        x_direction: usize,
        y_direction: usize,
    ) -> (r: (i32, i32, i32))
        requires
            lattice.wf(),
        ensures
            r.0 == landing_coord(lattice.x_size as int, x_draw, x_direction),
            r.1 == landing_coord(lattice.y_size as int, y_draw, y_direction),
            r.2 == lattice.z_size - 1,
            lattice.in_bounds(r.0 as int, r.1 as int, r.2 as int),
    {
        let x = Self::landing_axis(lattice.x_size, x_draw, x_direction);
        let y = Self::landing_axis(lattice.y_size, y_draw, y_direction);
        (x, y, lattice.z_size - 1)
    }

    fn landing_axis(size: i32, draw: i64, direction: usize) -> (r: i32)
        requires
            size >= 1,
        ensures
            r == landing_coord(size as int, draw, direction),
            0 <= r < size,
    {
        let c = size / 2;
        let v = magnitude_count(draw);
        if direction % 2 == 0 {
            let room = c as usize;
            if v < room { c - v as i32 } else { 0 }
        } else {
            let room = (size - 1 - c) as usize;
            if v < room { c + v as i32 } else { size - 1 }
        }
    }

    /// The roll rule applied to this grain, with `choice` picking among the open
    /// lower neighbours.
    pub fn roll(&self, lattice: &Lattice, choice: usize) -> (r: RollMove)
        requires
            lattice.wf(),
            lattice.in_bounds(self.x as int, self.y as int, self.z as int),
        ensures
            r == roll_move(*lattice, *self, choice),
            r matches RollMove::To(a, b, c) ==> lattice.in_bounds(a as int, b as int, c as int) && c == self.z - 1,
    {
        let open = Location::openLowerNeighbors(lattice, self.x, self.y, self.z);
        if open.len() > 0 {
            let c = open[choice % open.len()];
            RollMove::To(c.0, c.1, c.2)
        } else if self.z == 0 && (self.x == 0 || self.x == lattice.x_size - 1 || self.y == 0 || self.y
            == lattice.y_size - 1) {
            RollMove::Escape
        } else if self.stalls < MAX_ROLL_RETRIES {
            RollMove::Wait
        } else {
            let i = lattice.index(self.x, self.y, self.z);
            if lattice.cells[i].grainIds.len() < lattice.cells[i].capacity {
                RollMove::Settle
            } else if self.z < lattice.z_size - 1 {
                RollMove::Climb
            } else {
                RollMove::Escape
            }
        }
    }
}

} // verus!
