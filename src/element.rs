//! The behaviour and appearance of a kind of material.
use vstd::prelude::*;

use crate::playfield::{Particle, ParticleModel, Playfield};

verus! {

/// The appearance and weight of a kind of material. Every particle refers to
/// one, shared between all the particles of that kind.
pub trait Material: Sized {
    /// The relative weight of the material, in thousandths.
    spec fn spec_density(&self) -> u32;

    /// Relative weight, in thousandths: on a collision the denser particle
    /// takes the lighter one's place.
    fn density(&self) -> (r: u32)
        ensures
            r == self.spec_density(),
    ;

    /// A human-readable name of the material.
    fn name(&self) -> &str;

    /// The RGBA colors a new particle of this material may take.
    spec fn is_color(&self, c: [u8; 4]) -> bool;

    /// The RGBA color of a new particle; it may vary from call to call.
    fn color(&self) -> (r: [u8; 4])
        ensures
            self.is_color(r),
    ;

}

/// A kind of material with its behaviour.
pub trait Element: Material {
    /// What one step of particle `p` may make of the grid `before`: `after`
    /// is a possible outcome.
    spec fn step_relation(&self, p: ParticleModel<Self>, before: Playfield<Self>, after: Playfield<Self>) -> bool;

    /// Advances the particle `particle`, a snapshot of the occupant of its
    /// cell, by one tick.
    fn step(&self, particle: &mut Particle<Self>, playfield: &mut Playfield<Self>)
        requires
            old(playfield).wf(),
            old(particle)@.x < old(playfield).spec_width(),
            old(particle)@.y < old(playfield).spec_height(),
        ensures
            final(playfield).wf(),
            final(playfield).same_size(*old(playfield)),
            self.step_relation(old(particle)@, *old(playfield), *final(playfield)),
    ;
}

} // verus!
