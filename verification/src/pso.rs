//! The data shapes of the particle-swarm variant.
//!
//! A particle carries a position, a velocity, and the best position it
//! has seen; a swarm carries its particles and the best position any of
//! them has seen. Building a random swarm is plain construction and lives
//! here; the swarm update itself steers every dimension with real-valued
//! coefficients, which this crate leaves to its callers.

use crate::source::Source;
use vstd::prelude::*;

verus! {

/// One particle of the swarm.
pub struct Particle<T> {
    /// Where the particle stands, one coordinate per dimension.
    pub position: Vec<T>,
    /// How the particle moves, one coordinate per dimension.
    pub velocity: Vec<T>,
    /// The best position this particle has seen.
    pub best_known_position: Vec<T>,
}

impl<T> Particle<T> {
    /// All three vectors span the same `dim` dimensions.
    pub open spec fn wf_dim(&self, dim: nat) -> bool {
        &&& self.position@.len() == dim
        &&& self.velocity@.len() == dim
        &&& self.best_known_position@.len() == dim
    }
}

/// A swarm: the particles, and the best position any of them has seen.
pub struct Swarm<T> {
    /// The particles of the swarm.
    pub population: Vec<Particle<T>>,
    /// The best position any particle has seen.
    pub best_known_position: Vec<T>,
}

impl<T> Swarm<T> {
    /// Builds a swarm of `pop_size` fresh particles, every vector drawn
    /// from the randomization strategy, and one more draw as the swarm's
    /// starting best-known position.
    pub fn initial_random_pop<S: Source<T>>(pop_size: usize, randness: S) -> (sw: Self)
        ensures
            sw.population@.len() == pop_size,
            forall|k: int|
                0 <= k < pop_size ==> (#[trigger] sw.population@[k]).wf_dim(randness.len_spec()),
            sw.best_known_position@.len() == randness.len_spec(),
    {
        let mut population: Vec<Particle<T>> = Vec::new();
        let mut k: usize = 0;
        while k < pop_size
            invariant
                k <= pop_size,
                population@.len() == k,
                forall|m: int|
                    0 <= m < k ==> (#[trigger] population@[m]).wf_dim(randness.len_spec()),
            decreases pop_size - k,
        {
            let position = randness.generate();
            let velocity = randness.generate();
            let best_known_position = randness.generate();
            population.push(Particle { position, velocity, best_known_position });
            k = k + 1;
        }
        Swarm { population, best_known_position: randness.generate() }
    }
}

} // verus!
