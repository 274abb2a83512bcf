use mincost::sa::{accept_decision, exp_q_exec, ACCEPT_SCALE};
use mincost::{
    AlternatingBits, AnnealState, Annealer, AnnealerConfig, Popcount, RandomBits, SaError, Solution,
};

fn count_trues(bits: &Vec<bool>) -> usize {
    bits.iter().filter(|b| **b).count()
}

fn sorted(mut v: Vec<i32>) -> Vec<i32> {
    v.sort();
    v
}

#[test]
fn anneal_runs_the_full_budget_above_the_floor() {
    // alpha 4/5, starting temperature 80, floor 5, ten steps: the
    // schedule 80, 64, 51, 40, 32, 25, 20, 16, 12, 9, 7 never crosses
    // the floor at a check, so all ten steps run and the temperature
    // ends at 7.
    fastrand::seed(40);
    let cfg = AnnealerConfig {
        alpha_num: 4,
        alpha_den: 5,
        temperature_zero: 80,
        temperature_end: 5,
        iteration: 10,
    };
    let mut annealer = Annealer::init(cfg, Popcount, RandomBits { len: 8 }).unwrap();
    annealer.anneal();
    assert_eq!(annealer.state.temperature, 7);
}

#[test]
fn anneal_stops_when_the_floor_is_crossed() {
    // alpha 1/2, starting temperature 8, floor 5: the first step cools
    // to 4, the second check sees 4 below the floor and stops with
    // budget left.
    fastrand::seed(41);
    let cfg = AnnealerConfig {
        alpha_num: 1,
        alpha_den: 2,
        temperature_zero: 8,
        temperature_end: 5,
        iteration: 10,
    };
    let mut annealer = Annealer::init(cfg, Popcount, RandomBits { len: 8 }).unwrap();
    annealer.anneal();
    assert_eq!(annealer.state.temperature, 4);
}

#[test]
fn cooling_is_geometric_and_never_increases() {
    let mut state = AnnealState { solution: Solution { bits: vec![true] }, temperature: 100 };
    state.update_temperature(4, 5);
    assert_eq!(state.temperature, 80);
    state.update_temperature(4, 5);
    assert_eq!(state.temperature, 64);
    state.update_temperature(1, 3);
    assert_eq!(state.temperature, 21);
    let mut previous = state.temperature;
    for _ in 0..20 {
        state.update_temperature(7, 9);
        assert_eq!(state.temperature, previous * 7 / 9);
        assert!(state.temperature <= previous);
        previous = state.temperature;
    }
}

#[test]
fn fixed_point_exponential_matches_its_definition() {
    assert_eq!(exp_q_exec(0), 65536);
    assert_eq!(exp_q_exec(1), 65535);
    assert_eq!(exp_q_exec(100), 65436);
    assert_eq!(exp_q_exec(8192), 57856);
    assert_eq!(exp_q_exec(16384), 51076);
    assert_eq!(exp_q_exec(65536), 24177);
    assert_eq!(exp_q_exec(131072), 8919);
    assert_eq!(exp_q_exec(1048575), 0);
    assert_eq!(exp_q_exec(1048576), 0);
}

#[test]
fn a_strictly_better_neighbor_is_always_accepted() {
    assert!(accept_decision(-1, 50, 0));
    assert!(accept_decision(-1, 50, ACCEPT_SCALE - 1));
    assert!(accept_decision(-1000000, 1, ACCEPT_SCALE - 1));
}

#[test]
fn an_equal_neighbor_is_always_accepted() {
    // delta 0 decays to the full threshold, and every draw lies below it.
    assert!(accept_decision(0, 50, 0));
    assert!(accept_decision(0, 50, ACCEPT_SCALE - 1));
}

#[test]
fn a_worse_neighbor_is_accepted_iff_the_draw_is_below_the_threshold() {
    // At temperature 65536 a delta of 65536 scales to one unit, whose
    // decayed threshold is 24177.
    assert!(accept_decision(65536, 65536, 24176));
    assert!(!accept_decision(65536, 65536, 24177));
    assert!(!accept_decision(65536, 65536, ACCEPT_SCALE - 1));
    // Far below the floor of the scale nothing is accepted.
    assert!(!accept_decision(0x1_0000_0000, 1, 0));
}

#[test]
fn a_neighbor_is_a_swap_of_the_solution() {
    fastrand::seed(42);
    let solution = Solution { bits: vec![0, 1, 2, 3, 4, 5, 6, 7, 8, 9] };
    let neighbor = solution.neighbor();
    assert_eq!(neighbor.bits.len(), 10);
    assert_eq!(sorted(neighbor.bits), vec![0, 1, 2, 3, 4, 5, 6, 7, 8, 9]);
    assert_eq!(solution.bits, vec![0, 1, 2, 3, 4, 5, 6, 7, 8, 9]);
}

#[test]
fn anneal_only_permutes_the_solution() {
    fastrand::seed(43);
    let cfg = AnnealerConfig {
        alpha_num: 9,
        alpha_den: 10,
        temperature_zero: 100,
        temperature_end: 1,
        iteration: 25,
    };
    let mut annealer = Annealer::init(cfg, Popcount, AlternatingBits { len: 8 }).unwrap();
    assert_eq!(count_trues(&annealer.state.solution.bits), 4);
    let best = annealer.anneal();
    assert_eq!(best.bits.len(), 8);
    assert_eq!(count_trues(&best.bits), 4);
}

#[test]
fn inconsistent_cooling_schedules_are_config_errors() {
    let fitness = Popcount;
    let base = AnnealerConfig {
        alpha_num: 4,
        alpha_den: 5,
        temperature_zero: 80,
        temperature_end: 5,
        iteration: 10,
    };
    let flat = AnnealerConfig { alpha_num: 5, alpha_den: 5, ..base };
    assert!(matches!(
        Annealer::init(flat, fitness, RandomBits { len: 4 }),
        Err(SaError::InvalidSaConfig)
    ));
    let zero_alpha = AnnealerConfig { alpha_num: 0, ..base };
    assert!(matches!(
        Annealer::init(zero_alpha, Popcount, RandomBits { len: 4 }),
        Err(SaError::InvalidSaConfig)
    ));
    let floor_above_start = AnnealerConfig { temperature_zero: 5, temperature_end: 80, ..base };
    assert!(matches!(
        Annealer::init(floor_above_start, Popcount, RandomBits { len: 4 }),
        Err(SaError::InvalidSaConfig)
    ));
    let zero_floor = AnnealerConfig { temperature_end: 0, ..base };
    assert!(matches!(
        Annealer::init(zero_floor, Popcount, RandomBits { len: 4 }),
        Err(SaError::InvalidSaConfig)
    ));
}
