use mincost::{
    Evolution, EvolutionConfig, GaError, Individual, Popcount, Population, PopulationStatus,
    RandomBits,
};

fn config(
    pop_size: usize,
    elite_size: usize,
    mutation_rate: u32,
    generations: usize,
) -> EvolutionConfig {
    EvolutionConfig { pop_size, elite_size, mutation_rate, generations }
}

fn genes_of(pop: &Population<bool>) -> Vec<Vec<bool>> {
    pop.individuals.iter().map(|ind| ind.genes.clone()).collect()
}

fn popcount_of(ind: &Individual<bool>) -> i32 {
    ind.genes.iter().filter(|b| **b).count() as i32
}

#[test]
fn selection_before_rank_is_rejected() {
    fastrand::seed(1);
    let pop: Population<bool> = Population::initial_random_pop(4, RandomBits { len: 4 });
    assert_eq!(pop.status, PopulationStatus::Initialized);
    let before = genes_of(&pop);
    let r = pop.selection(&config(4, 2, 10, 1), &Popcount);
    assert!(matches!(r, Err(GaError::SelectionBeforeRank)));
    assert_eq!(genes_of(&pop), before);
}

#[test]
fn breed_before_selection_is_rejected() {
    fastrand::seed(2);
    let mut pop: Population<bool> = Population::initial_random_pop(4, RandomBits { len: 4 });
    pop.rank(&Popcount);
    let before = genes_of(&pop);
    let r = pop.breed(&config(4, 2, 10, 1), mincost::Crossover::Segment);
    assert!(matches!(r, Err(GaError::BreedBeforeSelection)));
    assert_eq!(genes_of(&pop), before);
    assert_eq!(pop.status, PopulationStatus::Ranked);
}

#[test]
fn mutate_before_breed_is_rejected() {
    fastrand::seed(3);
    let cfg = config(4, 2, 50, 1);
    let mut pop: Population<bool> = Population::initial_random_pop(4, RandomBits { len: 4 });
    pop.rank(&Popcount);
    let mut selected = pop.selection(&cfg, &Popcount).unwrap();
    assert_eq!(selected.status, PopulationStatus::Selected);
    let before = genes_of(&selected);
    let r = selected.mutate(&cfg);
    assert!(matches!(r, Err(GaError::MutateBeforeBreed)));
    assert_eq!(genes_of(&selected), before);
    assert_eq!(selected.status, PopulationStatus::Selected);
}

#[test]
fn best_individual_before_mutate_is_rejected() {
    fastrand::seed(4);
    let pop: Population<bool> = Population::initial_random_pop(4, RandomBits { len: 4 });
    let r = pop.best_individual();
    assert!(matches!(r, Err(GaError::BestIndividualNotReady)));
}

#[test]
fn evolute_with_zero_generations_is_rejected() {
    fastrand::seed(5);
    let mut ev = Evolution::init(config(4, 2, 10, 0), Popcount, RandomBits { len: 4 }).unwrap();
    let r = ev.evolute();
    assert!(matches!(r, Err(GaError::BestIndividualNotReady)));
}

#[test]
fn elite_size_above_pop_size_is_a_config_error() {
    let r = Evolution::init(config(4, 5, 10, 1), Popcount, RandomBits { len: 4 });
    assert!(matches!(r, Err(GaError::InvalidGaConfig)));
}

#[test]
fn empty_population_is_a_config_error() {
    let r = Evolution::init(config(0, 0, 10, 1), Popcount, RandomBits { len: 4 });
    assert!(matches!(r, Err(GaError::InvalidGaConfig)));
}

#[test]
fn mutation_rate_above_hundred_is_a_config_error() {
    let r = Evolution::init(config(4, 2, 101, 1), Popcount, RandomBits { len: 4 });
    assert!(matches!(r, Err(GaError::InvalidGaConfig)));
}

#[test]
fn population_size_is_kept_through_every_phase() {
    fastrand::seed(6);
    let cfg = config(6, 2, 40, 1);
    let mut pop: Population<bool> = Population::initial_random_pop(6, RandomBits { len: 5 });
    assert_eq!(pop.individuals.len(), 6);
    pop.rank(&Popcount);
    assert_eq!(pop.individuals.len(), 6);
    let selected = pop.selection(&cfg, &Popcount).unwrap();
    assert_eq!(selected.individuals.len(), 6);
    let mut breeded = selected.breed(&cfg, mincost::Crossover::Segment).unwrap();
    assert_eq!(breeded.individuals.len(), 6);
    breeded.mutate(&cfg).unwrap();
    assert_eq!(breeded.individuals.len(), 6);
}

#[test]
fn population_size_is_kept_across_a_run() {
    fastrand::seed(7);
    let mut ev = Evolution::init(config(6, 2, 40, 4), Popcount, RandomBits { len: 5 }).unwrap();
    let best = ev.evolute().unwrap();
    assert_eq!(ev.population.individuals.len(), 6);
    assert_eq!(best.genes.len(), 5);
}

#[test]
fn two_elites_pass_unchanged_through_one_cycle() {
    // pop_size 4, elite_size 2, boolean genes of width 4, popcount
    // fitness, deterministic seed: after one full cycle the two elites of
    // the ranked start stand unchanged at the front of the new
    // generation, before any re-ranking.
    fastrand::seed(8);
    let cfg = config(4, 2, 0, 1);
    let mut pop: Population<bool> = Population::initial_random_pop(4, RandomBits { len: 4 });
    pop.rank(&Popcount);
    let elite0 = pop.individuals[0].genes.clone();
    let elite1 = pop.individuals[1].genes.clone();
    let selected = pop.selection(&cfg, &Popcount).unwrap();
    let mut next = selected.breed(&cfg, mincost::Crossover::Segment).unwrap();
    next.mutate(&cfg).unwrap();
    assert_eq!(next.status, PopulationStatus::Mutated);
    assert_eq!(next.individuals[0].genes, elite0);
    assert_eq!(next.individuals[1].genes, elite1);
}

#[test]
fn best_of_final_generation_never_scores_above_initial_best() {
    // With at least one elite and no mutation, the reported best can only
    // improve on (or match) the best of the first generation.
    fastrand::seed(9);
    let mut ev = Evolution::init(config(8, 2, 0, 5), Popcount, RandomBits { len: 10 }).unwrap();
    let initial_best = ev.population.individuals.iter().map(popcount_of).min().unwrap();
    let best = ev.evolute().unwrap();
    assert!(popcount_of(&best) <= initial_best);
}

#[test]
fn selection_draws_only_ranked_individuals() {
    fastrand::seed(10);
    let cfg = config(5, 1, 0, 1);
    let mut pop: Population<bool> = Population::initial_random_pop(5, RandomBits { len: 6 });
    pop.rank(&Popcount);
    let ranked = genes_of(&pop);
    let selected = pop.selection(&cfg, &Popcount).unwrap();
    assert_eq!(selected.individuals[0].genes, ranked[0]);
    for ind in selected.individuals.iter() {
        assert!(ranked.contains(&ind.genes));
    }
}

#[test]
fn ranking_sorts_ascending_by_fitness() {
    fastrand::seed(11);
    let mut pop: Population<bool> = Population::initial_random_pop(8, RandomBits { len: 6 });
    let before: Vec<i32> = {
        let mut scores: Vec<i32> = pop.individuals.iter().map(popcount_of).collect();
        scores.sort();
        scores
    };
    pop.rank(&Popcount);
    let after: Vec<i32> = pop.individuals.iter().map(popcount_of).collect();
    let mut resorted = after.clone();
    resorted.sort();
    assert_eq!(after, resorted);
    assert_eq!(after, before);
    assert_eq!(pop.status, PopulationStatus::Ranked);
}
