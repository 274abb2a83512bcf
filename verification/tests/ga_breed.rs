use mincost::{
    BiasedPopcount, Crossover, EvolutionConfig, Individual, Popcount, Population,
    PopulationStatus, RandomBits,
};

fn config(
    pop_size: usize,
    elite_size: usize,
    mutation_rate: u32,
    generations: usize,
) -> EvolutionConfig {
    EvolutionConfig { pop_size, elite_size, mutation_rate, generations }
}

fn sorted(mut v: Vec<i32>) -> Vec<i32> {
    v.sort();
    v
}

#[test]
fn permutation_crossover_children_share_the_gene_multiset() {
    // Four parents, each a permutation of 0..8: every child of the
    // permutation-preserving crossover is again a permutation of 0..8.
    fastrand::seed(20);
    let cfg = config(4, 0, 0, 1);
    let parents: Vec<Individual<i32>> = vec![
        Individual { genes: vec![0, 1, 2, 3, 4, 5, 6, 7] },
        Individual { genes: vec![7, 6, 5, 4, 3, 2, 1, 0] },
        Individual { genes: vec![3, 1, 4, 0, 5, 2, 7, 6] },
        Individual { genes: vec![2, 7, 1, 6, 0, 5, 3, 4] },
    ];
    let pool = sorted(parents[0].genes.clone());
    let pop = Population { individuals: parents, status: PopulationStatus::Selected };
    let bred = pop.breed(&cfg, Crossover::Permutation).unwrap();
    assert_eq!(bred.individuals.len(), 4);
    for child in bred.individuals.iter() {
        assert_eq!(sorted(child.genes.clone()), pool);
    }
}

#[test]
fn permutation_crossover_direct_child_is_a_permutation() {
    fastrand::seed(21);
    let a = Individual { genes: vec![3, 1, 2, 0] };
    let b = Individual { genes: vec![0, 1, 2, 3] };
    let child = a.breed2(&b);
    assert_eq!(child.genes.len(), 4);
    assert_eq!(sorted(child.genes), vec![0, 1, 2, 3]);
}

#[test]
fn segment_crossover_keeps_the_length_and_draws_from_both_parents() {
    fastrand::seed(22);
    let a = Individual { genes: vec![1, 1, 1, 1, 1, 1] };
    let b = Individual { genes: vec![2, 2, 2, 2, 2, 2] };
    let child = a.breed1(&b);
    assert_eq!(child.genes.len(), 6);
    for g in child.genes.iter() {
        assert!(*g == 1 || *g == 2);
    }
}

#[test]
fn mutation_swaps_within_the_individual() {
    fastrand::seed(23);
    let mut ind = Individual { genes: vec![0, 1, 2, 3, 4, 5, 6, 7, 8, 9] };
    ind.mutate();
    assert_eq!(sorted(ind.genes), vec![0, 1, 2, 3, 4, 5, 6, 7, 8, 9]);
}

#[test]
fn full_mutation_rate_eventually_produces_a_real_swap() {
    // With two distinct genes, a swap of two random positions exchanges
    // them half of the time; over fifty tries at least one exchange must
    // show, so a mutation step that never touched its input would fail
    // here.
    fastrand::seed(24);
    let mut changed = false;
    for _ in 0..50 {
        let mut ind = Individual { genes: vec![0, 1] };
        ind.mutate();
        if ind.genes == vec![1, 0] {
            changed = true;
        }
    }
    assert!(changed);
}

#[test]
fn zero_mutation_rate_changes_nothing() {
    fastrand::seed(25);
    let cfg = config(3, 0, 0, 1);
    let individuals: Vec<Individual<i32>> = vec![
        Individual { genes: vec![4, 5, 6] },
        Individual { genes: vec![7, 8, 9] },
        Individual { genes: vec![1, 2, 3] },
    ];
    let mut pop = Population { individuals, status: PopulationStatus::Breeded };
    pop.mutate(&cfg).unwrap();
    assert_eq!(pop.status, PopulationStatus::Mutated);
    assert_eq!(pop.individuals[0].genes, vec![4, 5, 6]);
    assert_eq!(pop.individuals[1].genes, vec![7, 8, 9]);
    assert_eq!(pop.individuals[2].genes, vec![1, 2, 3]);
}

#[test]
fn full_mutation_rate_keeps_every_gene_multiset() {
    fastrand::seed(26);
    let cfg = config(2, 0, 100, 1);
    let individuals: Vec<Individual<i32>> = vec![
        Individual { genes: vec![10, 20, 30, 40] },
        Individual { genes: vec![5, 6, 7, 8] },
    ];
    let mut pop = Population { individuals, status: PopulationStatus::Breeded };
    pop.mutate(&cfg).unwrap();
    assert_eq!(sorted(pop.individuals[0].genes.clone()), vec![10, 20, 30, 40]);
    assert_eq!(sorted(pop.individuals[1].genes.clone()), vec![5, 6, 7, 8]);
}

#[test]
fn raw_selection_handles_negative_scores_with_full_size() {
    // With a bias of 8 every 4-bit popcount scores negative, so the raw
    // cumulative table carries a negative total; selection still fills
    // every slot and keeps the elites.
    fastrand::seed(27);
    let cfg = config(4, 2, 0, 1);
    let fitness = BiasedPopcount { bias: 8 };
    let mut pop: Population<bool> = Population::initial_random_pop(4, RandomBits { len: 4 });
    pop.rank(&fitness);
    let elite0 = pop.individuals[0].genes.clone();
    let elite1 = pop.individuals[1].genes.clone();
    let selected = pop.selection(&cfg, &fitness).unwrap();
    assert_eq!(selected.individuals.len(), 4);
    assert_eq!(selected.individuals[0].genes, elite0);
    assert_eq!(selected.individuals[1].genes, elite1);
}

#[test]
fn normalized_selection_handles_negative_scores_with_full_size() {
    fastrand::seed(28);
    let cfg = config(4, 2, 0, 1);
    let fitness = BiasedPopcount { bias: 8 };
    let mut pop: Population<bool> = Population::initial_random_pop(4, RandomBits { len: 4 });
    pop.rank(&fitness);
    let elite0 = pop.individuals[0].genes.clone();
    let elite1 = pop.individuals[1].genes.clone();
    let selected = pop.selection_normalized(&cfg, &fitness).unwrap();
    assert_eq!(selected.individuals.len(), 4);
    assert_eq!(selected.individuals[0].genes, elite0);
    assert_eq!(selected.individuals[1].genes, elite1);
    assert_eq!(selected.status, PopulationStatus::Selected);
}

#[test]
fn normalized_selection_still_requires_a_ranked_population() {
    fastrand::seed(29);
    let cfg = config(4, 2, 0, 1);
    let fitness = BiasedPopcount { bias: 8 };
    let pop: Population<bool> = Population::initial_random_pop(4, RandomBits { len: 4 });
    let r = pop.selection_normalized(&cfg, &fitness);
    assert!(matches!(r, Err(mincost::GaError::SelectionBeforeRank)));
}

#[test]
fn popcount_scores_an_all_zero_population_uniformly() {
    // An all-false population scores zero everywhere: the cumulative
    // table has a zero total, and selection falls back to uniform draws
    // rather than failing.
    fastrand::seed(30);
    let cfg = config(3, 1, 0, 1);
    let individuals: Vec<Individual<bool>> = vec![
        Individual { genes: vec![false, false] },
        Individual { genes: vec![false, false] },
        Individual { genes: vec![false, false] },
    ];
    let mut pop = Population { individuals, status: PopulationStatus::Initialized };
    pop.rank(&Popcount);
    let selected = pop.selection(&cfg, &Popcount).unwrap();
    assert_eq!(selected.individuals.len(), 3);
}

#[test]
fn roulette_picks_the_first_slot_that_covers_the_draw() {
    // Scores [1, 0]: the whole mass sits on the first slot's cumulative
    // share, so every roulette draw lands there, whatever the seed.
    fastrand::seed(31);
    let cfg = config(2, 0, 0, 1);
    let individuals: Vec<Individual<bool>> = vec![
        Individual { genes: vec![true, false] },
        Individual { genes: vec![false, false] },
    ];
    let pop = Population { individuals, status: PopulationStatus::Ranked };
    let selected = pop.selection(&cfg, &Popcount).unwrap();
    assert_eq!(selected.individuals.len(), 2);
    for ind in selected.individuals.iter() {
        assert_eq!(ind.genes, vec![true, false]);
    }
}

#[test]
fn breeding_pairs_the_mirrored_slots() {
    // Two selected parents, no elites: slot 0 takes its segment from
    // parent 0 and the rest from parent 1, slot 1 the other way around,
    // so each child shows one contiguous run of the segment parent's
    // genes inside the other parent's.
    fastrand::seed(32);
    let cfg = config(2, 0, 0, 1);
    let individuals: Vec<Individual<i32>> = vec![
        Individual { genes: vec![1, 1, 1, 1, 1, 1] },
        Individual { genes: vec![2, 2, 2, 2, 2, 2] },
    ];
    let pop = Population { individuals, status: PopulationStatus::Selected };
    let bred = pop.breed(&cfg, Crossover::Segment).unwrap();
    let ones: Vec<usize> =
        bred.individuals[0].genes.iter().enumerate().filter(|(_, g)| **g == 1).map(|(p, _)| p).collect();
    let twos: Vec<usize> =
        bred.individuals[1].genes.iter().enumerate().filter(|(_, g)| **g == 2).map(|(p, _)| p).collect();
    // the segment parent's genes stand as one contiguous block at the end
    for (offset, p) in ones.iter().enumerate() {
        assert_eq!(*p, 6 - ones.len() + offset);
    }
    for (offset, p) in twos.iter().enumerate() {
        assert_eq!(*p, 6 - twos.len() + offset);
    }
}
