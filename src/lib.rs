//! A self-organising sandpile on a bounded 3D lattice. Grains are dropped one
//! at a time; each drop runs an avalanche of falling, impacting and rolling
//! grains, where an impact may topple a cell and shed grains into the cascade,
//! until every grain is at rest again. Random variates come from a caller's
//! `Variates` source, so runs can be seeded or scripted.

#![allow(non_snake_case)]

pub mod constants;
pub mod draws;
pub mod error;
pub mod grain;
pub mod location;
pub mod avalanche;
pub mod pile;
pub mod laws;
pub mod stats;
pub mod ids;
