//! A falling-sand cellular automaton: a grid of cells holding at most one
//! particle each, advanced one tick at a time, with density-driven collisions.
use vstd::prelude::*;

pub mod element;
pub mod materials;
mod outside;
pub mod playfield;
pub mod simulation;
pub mod util;

pub use element::{Element, Material};
pub use outside::GridImage;
pub use playfield::{Particle, Playfield};
pub use simulation::Simulation;

verus! {

} // verus!
