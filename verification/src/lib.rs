//! A verified toolkit of heuristic optimizers.
//!
//! Two search engines form the core of the crate:
//!
//! 1. a generational evolutionary engine, which drives a population of
//!    candidate encodings through rank, select, breed and mutate phases, and
//! 2. a simulated-annealing engine, which walks from one candidate solution
//!    to a random neighbor under a geometric cooling schedule and a
//!    Metropolis acceptance rule.
//!
//! Clients supply the encoding-specific behavior: a pure fitness function
//! and a randomization strategy. The engines supply the verified control
//! flow: population size is preserved, the lifecycle of a population
//! advances in order or reports a sequencing error, elites are carried over
//! verbatim, mutation and annealing steps only permute genes, and the
//! temperature follows the configured cooling schedule exactly.

pub mod error;
pub mod fitness;
pub mod ga;
pub mod perm;
pub mod pso;
mod rng;
pub mod sa;
pub mod source;

pub use error::{GaError, PsoError, SaError};
pub use fitness::{BiasedPopcount, Fitness, Popcount};
pub use ga::{Crossover, Evolution, EvolutionConfig, Individual, Population, PopulationStatus};
pub use pso::{Particle, Swarm};
pub use sa::{AnnealState, Annealer, AnnealerConfig, Solution};
pub use source::{AlternatingBits, RandomBits, Source};
