//! Error types of the optimizers.
//!
//! The evolutionary engine distinguishes two classes of failure:
//!
//! - configuration errors, raised at construction, before any population
//!   exists (an elite size above the population size, an empty population,
//!   a mutation rate above one hundred percent);
//! - sequencing errors, raised when a lifecycle phase is invoked out of
//!   order (selecting before ranking, breeding before selecting, mutating
//!   before breeding, or asking for the best individual of a population
//!   that has not completed a cycle). A sequencing error never mutates the
//!   population it was raised on.
//!
//! The annealing engine only fails at construction, on an invalid cooling
//! schedule.

use vstd::prelude::*;

verus! {

/// Everything that can go wrong while constructing or running the
/// evolutionary engine.
#[derive(Debug, Clone, Copy, PartialEq, Eq, Structural)]
pub enum GaError {
    /// A population must be ranked before individuals are selected.
    SelectionBeforeRank,
    /// A population must be selected before individuals are bred.
    BreedBeforeSelection,
    /// A population must be bred before individuals are mutated.
    MutateBeforeBreed,
    /// The best individual exists only once a full cycle has run.
    BestIndividualNotReady,
    /// The hyper parameters are inconsistent: the population is empty, the
    /// elite size exceeds the population size, or the mutation rate exceeds
    /// one hundred percent.
    InvalidGaConfig,
}

impl GaError {
    /// The diagnostic text of this error.
    pub open spec fn message_spec(self) -> Seq<char> {
        match self {
            GaError::SelectionBeforeRank => "Population must be ranked before selection"@,
            GaError::BreedBeforeSelection => "Population must be selected before breed"@,
            GaError::MutateBeforeBreed => "Population must be breed before mutate"@,
            GaError::BestIndividualNotReady => "Best Individuals Not generated"@,
            GaError::InvalidGaConfig => "Invalid ga config"@,
        }
    }

    /// Renders the error as a human-readable message.
    pub fn message(self) -> (m: &'static str)
        ensures
            m@ == self.message_spec(),
    {
        match self {
            GaError::SelectionBeforeRank => "Population must be ranked before selection",
            GaError::BreedBeforeSelection => "Population must be selected before breed",
            GaError::MutateBeforeBreed => "Population must be breed before mutate",
            GaError::BestIndividualNotReady => "Best Individuals Not generated",
            GaError::InvalidGaConfig => "Invalid ga config",
        }
    }
}

/// Everything that can go wrong while constructing the annealing engine.
#[derive(Debug, Clone, Copy, PartialEq, Eq, Structural)]
pub enum SaError {
    /// The cooling schedule is inconsistent: the cooling factor does not lie
    /// strictly between zero and one, a temperature is zero, or the floor
    /// temperature is not below the starting temperature.
    InvalidSaConfig,
}

impl SaError {
    /// The diagnostic text of this error.
    pub open spec fn message_spec(self) -> Seq<char> {
        match self {
            SaError::InvalidSaConfig => "Invalid sa config"@,
        }
    }

    /// Renders the error as a human-readable message.
    pub fn message(self) -> (m: &'static str)
        ensures
            m@ == self.message_spec(),
    {
        match self {
            SaError::InvalidSaConfig => "Invalid sa config",
        }
    }
}

/// Everything that can go wrong while configuring the particle-swarm
/// variant.
#[derive(Debug, Clone, Copy, PartialEq, Eq, Structural)]
pub enum PsoError {
    /// The swarm hyper parameters could not be read.
    InvalidPsoConfig,
}

impl PsoError {
    /// The diagnostic text of this error.
    pub open spec fn message_spec(self) -> Seq<char> {
        match self {
            PsoError::InvalidPsoConfig => "Failed to parse pso config"@,
        }
    }

    /// Renders the error as a human-readable message.
    pub fn message(self) -> (m: &'static str)
        ensures
            m@ == self.message_spec(),
    {
        match self {
            PsoError::InvalidPsoConfig => "Failed to parse pso config",
        }
    }
}

} // verus!
