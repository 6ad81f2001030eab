use vstd::prelude::*;

verus! {

/// Default extent of the lattice along x.
pub const X_SIZE: i32 = 31;

/// Default extent of the lattice along y.
pub const Y_SIZE: i32 = 31;

/// Default extent of the lattice along z (the vertical axis).
pub const Z_SIZE: i32 = 15;

/// Power-law exponents are written in hundredths: `110` stands for an alpha of 1.1.
/// An exponent is usable only when it is above `ALPHA_UNIT`, i.e. alpha > 1.
pub const ALPHA_UNIT: u32 = 100;

/// Exponent of the draws that jitter cell capacity and resilience.
pub const ALPHA_MAIN: u32 = 110;

/// Exponent of the draw that offsets a landing position from the centre.
pub const ALPHA_LANDING: u32 = 140;

/// Exponent of the draw that adds perturbation energy on impact.
pub const ALPHA_EXTRA_ENERGY: u32 = 120;

/// Exponent of the draw that sizes the batch of grains a toppling cell sheds.
pub const ALPHA_AVALANCHE_SIZE: u32 = 120;

/// Energy a free-falling grain cannot exceed.
pub const TERMINAL_FREE_FALL_SPEED: usize = 3;

/// Capacity of a cell inside the pile before jitter.
pub const BASE_CAPACITY: usize = 4;

/// Resilience of a cell inside the pile before jitter.
pub const BASE_RESILIENCE: usize = 3;

/// Smallest number of grains a toppling cell sheds before jitter.
pub const BASE_AVALANCHE_SIZE: usize = 2;

/// Passes a rolling grain may find no open lower neighbour before it settles
/// in place (or climbs one level when its own cell is full).
pub const MAX_ROLL_RETRIES: usize = 3;

/// Default pass budget of one avalanche.
pub const MAX_PASSES: usize = 100000;

/// Number of grains a batch run drops.
pub const TOTAL_GRAINS: usize = 1000000;

} // verus!
