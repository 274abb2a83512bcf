use mincost::{
    AlternatingBits, BiasedPopcount, Fitness, GaError, Popcount, PsoError, RandomBits, SaError,
    Source,
};

#[test]
fn popcount_counts_the_set_bits() {
    assert_eq!(Popcount.score(&vec![]), 0);
    assert_eq!(Popcount.score(&vec![false, false, false]), 0);
    assert_eq!(Popcount.score(&vec![true, false, true]), 2);
    assert_eq!(Popcount.score(&vec![true, true, true, true]), 4);
}

#[test]
fn biased_popcount_shifts_the_score() {
    let fitness = BiasedPopcount { bias: 3 };
    assert_eq!(fitness.score(&vec![true, true]), -1);
    assert_eq!(fitness.score(&vec![true, true, true]), 0);
    assert_eq!(fitness.score(&vec![true, true, true, true, true]), 2);
    let negative_bias = BiasedPopcount { bias: -2 };
    assert_eq!(negative_bias.score(&vec![true]), 3);
}

#[test]
fn random_bits_produce_the_requested_length() {
    fastrand::seed(50);
    let source = RandomBits { len: 17 };
    let bits = source.generate();
    assert_eq!(bits.len(), 17);
}

#[test]
fn random_bits_replay_under_one_seed() {
    let source = RandomBits { len: 32 };
    fastrand::seed(51);
    let first = source.generate();
    fastrand::seed(51);
    let second = source.generate();
    assert_eq!(first, second);
}

#[test]
fn alternating_bits_start_true_and_alternate() {
    let source = AlternatingBits { len: 5 };
    assert_eq!(source.generate(), vec![true, false, true, false, true]);
    let empty = AlternatingBits { len: 0 };
    assert_eq!(empty.generate(), Vec::<bool>::new());
}

#[test]
fn ga_errors_render_their_messages() {
    assert_eq!(
        GaError::SelectionBeforeRank.message(),
        "Population must be ranked before selection"
    );
    assert_eq!(
        GaError::BreedBeforeSelection.message(),
        "Population must be selected before breed"
    );
    assert_eq!(GaError::MutateBeforeBreed.message(), "Population must be breed before mutate");
    assert_eq!(GaError::BestIndividualNotReady.message(), "Best Individuals Not generated");
    assert_eq!(GaError::InvalidGaConfig.message(), "Invalid ga config");
}

#[test]
fn sa_and_pso_errors_render_their_messages() {
    assert_eq!(SaError::InvalidSaConfig.message(), "Invalid sa config");
    assert_eq!(PsoError::InvalidPsoConfig.message(), "Failed to parse pso config");
}
