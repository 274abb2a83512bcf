//! The simulated-annealing engine.
//!
//! An [`Annealer`] owns one [`AnnealState`] — the current solution and the
//! current temperature — and walks for up to `iteration` steps. Each step
//! proposes a random neighbor (two bit positions exchanged), accepts a
//! strictly better neighbor unconditionally, accepts an equal-or-worse one
//! exactly when a fresh uniform draw falls below the Metropolis threshold,
//! and cools the temperature geometrically once per step, whatever the
//! outcome. The walk stops early when the temperature falls below the
//! configured floor.
//!
//! All quantities are integers. Temperatures are plain integers; the
//! cooling factor is the ratio `alpha_num / alpha_den`; acceptance
//! probabilities live on the fixed-point scale [`ACCEPT_SCALE`], where
//! [`ACCEPT_SCALE`] stands for probability one, and the exponential is the
//! fixed-point approximation [`exp_q`].

use crate::error::SaError;
use crate::fitness::Fitness;
use crate::perm::{is_swap_of, lemma_swap_preserves_multiset, swapped};
use crate::rng::{rand_below, rand_index};
use crate::source::Source;
use vstd::arithmetic::div_mod::{lemma_div_is_ordered, lemma_div_multiples_vanish};
use vstd::arithmetic::mul::lemma_mul_inequality;
use vstd::prelude::*;

verus! {

/// The fixed-point scale of acceptance probabilities: this value stands
/// for probability one.
pub const ACCEPT_SCALE: u64 = 65536;

/// Arguments at most this value take the quadratic base case of
/// [`exp_q`]; larger ones are halved first.
pub const EXP_SMALL: u64 = 8192;

/// Arguments at least this value (sixteen on the unit scale) round to an
/// acceptance probability of zero.
pub const EXP_CAP: u64 = 1048576;

/// The decaying exponential on the fixed-point scale: `exp_q(x)`
/// approximates `exp(-x / ACCEPT_SCALE) * ACCEPT_SCALE`. Large arguments
/// round to zero; small ones take a quadratic approximation; the rest
/// halve the argument and square the result.
pub open spec fn exp_q(x: nat) -> nat
    decreases x,
{
    if x >= EXP_CAP {
        0
    } else if x <= EXP_SMALL {
        ((ACCEPT_SCALE - x) + x * x / (2 * (ACCEPT_SCALE as nat))) as nat
    } else {
        exp_q(x / 2) * exp_q(x / 2) / (ACCEPT_SCALE as nat)
    }
}

/// The fixed-point exponential never exceeds the scale: it is a
/// probability.
pub proof fn lemma_exp_q_le_scale(x: nat)
    ensures
        exp_q(x) <= ACCEPT_SCALE,
    decreases x,
{
    if x >= EXP_CAP {
    } else if x <= EXP_SMALL {
        let xi = x as int;
        lemma_mul_inequality(xi, 2 * ACCEPT_SCALE, xi);
        lemma_div_is_ordered(xi * xi, xi * (2 * ACCEPT_SCALE), 2 * ACCEPT_SCALE);
        lemma_div_multiples_vanish(xi, 2 * ACCEPT_SCALE);
        assert(xi * xi / (2 * ACCEPT_SCALE) <= xi);
    } else {
        lemma_exp_q_le_scale(x / 2);
        let hi = exp_q(x / 2) as int;
        lemma_mul_inequality(hi, ACCEPT_SCALE as int, hi);
        lemma_div_is_ordered(hi * hi, hi * ACCEPT_SCALE, ACCEPT_SCALE as int);
        lemma_div_multiples_vanish(hi, ACCEPT_SCALE as int);
        assert(hi * hi / (ACCEPT_SCALE as int) <= hi);
    }
}

/// Computes the fixed-point exponential [`exp_q`].
pub fn exp_q_exec(x: u64) -> (r: u64)
    ensures
        r == exp_q(x as nat),
    decreases x,
{
    if x >= EXP_CAP {
        0
    } else if x <= EXP_SMALL {
        proof {
            assert(x * x <= 8192 * 8192) by (nonlinear_arith)
                requires
                    x <= 8192,
            ;
            vstd::arithmetic::div_mod::lemma_div_nonincreasing(x * x, 2 * ACCEPT_SCALE);
        }
        let q = x * x / (2 * ACCEPT_SCALE);
        ACCEPT_SCALE - x + q
    } else {
        let h = exp_q_exec(x / 2);
        proof {
            lemma_exp_q_le_scale((x / 2) as nat);
            assert(h * h <= 65536 * 65536) by (nonlinear_arith)
                requires
                    0 <= h <= 65536,
            ;
        }
        h * h / ACCEPT_SCALE
    }
}

/// The Metropolis acceptance rule on the fixed-point scale: a strictly
/// better (lower-scoring) neighbor is always accepted; an equal-or-worse
/// one is accepted exactly when the uniform draw falls below the decayed
/// threshold `exp_q(delta * ACCEPT_SCALE / temperature)`.
pub open spec fn accept_spec(delta: int, temperature: int, draw: int) -> bool {
    delta < 0 || draw < exp_q((delta * ACCEPT_SCALE / temperature) as nat)
}

/// Decides whether a proposed neighbor is accepted: `delta` is its score
/// minus the current score, and `draw` is a fresh uniform draw below
/// [`ACCEPT_SCALE`]. Returns exactly what the acceptance rule says.
pub fn accept_decision(delta: i64, temperature: u32, draw: u64) -> (b: bool)
    requires
        temperature >= 1,
        draw < ACCEPT_SCALE,
        -0x1_0000_0000 <= delta <= 0x1_0000_0000,
    ensures
        b == accept_spec(delta as int, temperature as int, draw as int),
{
    if delta < 0 {
        true
    } else {
        let x = (delta as u64) * ACCEPT_SCALE / (temperature as u64);
        let threshold = exp_q_exec(x);
        draw < threshold
    }
}

/// One Metropolis step, described after the fact: some neighbor `nb` (the
/// old solution with two positions exchanged) and some uniform draw `d`
/// were proposed, and the new solution is the neighbor exactly when the
/// acceptance rule said yes to that pair, else the old solution.
pub open spec fn metropolis_outcome<T, F: Fitness<T>>(
    f: &F,
    old_sol: Seq<T>,
    temp: int,
    new_sol: Seq<T>,
    nb: Seq<T>,
    d: int,
) -> bool {
    &&& is_swap_of(old_sol, nb)
    &&& nb.len() == old_sol.len()
    &&& nb.to_multiset() == old_sol.to_multiset()
    &&& 0 <= d < ACCEPT_SCALE
    &&& (accept_spec(f.score_spec(nb) - f.score_spec(old_sol), temp, d) ==> new_sol == nb)
    &&& (!accept_spec(f.score_spec(nb) - f.score_spec(old_sol), temp, d) ==> new_sol == old_sol)
}

/// One candidate solution: an ordered sequence of bits of a copyable
/// type.
#[derive(Debug)]
pub struct Solution<T> {
    /// The encoded solution.
    pub bits: Vec<T>,
}

impl<T> View for Solution<T> {
    type V = Seq<T>;

    open spec fn view(&self) -> Seq<T> {
        self.bits@
    }
}

impl<T: Copy> Clone for Solution<T> {
    /// Clones the bits verbatim.
    fn clone(&self) -> (r: Self)
        ensures
            r@ == self@,
    {
        let mut bits: Vec<T> = Vec::new();
        let mut k: usize = 0;
        while k < self.bits.len()
            invariant
                k <= self.bits@.len(),
                bits@ == self.bits@.subrange(0, k as int),
            decreases self.bits@.len() - k,
        {
            bits.push(self.bits[k]);
            proof {
                assert(bits@ =~= self.bits@.subrange(0, k + 1));
            }
            k = k + 1;
        }
        proof {
            assert(bits@ =~= self.bits@);
        }
        Solution { bits }
    }
}

impl<T: Copy> Solution<T> {
    /// A random neighbor: this solution with the bits at two random
    /// positions exchanged. The multiset of bits is preserved.
    pub fn neighbor(&self) -> (r: Self)
        requires
            self@.len() >= 1,
        ensures
            is_swap_of(self@, r@),
            r@.len() == self@.len(),
            r@.to_multiset() == self@.to_multiset(),
    {
        let mut new_solution = self.clone();
        let idx1 = rand_index(new_solution.bits.len());
        let idx2 = rand_index(new_solution.bits.len());
        let b1 = new_solution.bits[idx1];
        let b2 = new_solution.bits[idx2];
        new_solution.bits.set(idx1, b2);
        new_solution.bits.set(idx2, b1);
        proof {
            assert(swapped(self@, new_solution@, idx1 as int, idx2 as int));
            lemma_swap_preserves_multiset(self@, new_solution@, idx1 as int, idx2 as int);
        }
        new_solution
    }
}

/// The hyper parameters of the annealing engine.
#[derive(Debug, PartialEq, Copy, Clone, Eq, Structural)]
pub struct AnnealerConfig {
    /// Numerator of the cooling factor.
    pub alpha_num: u32,
    /// Denominator of the cooling factor; the factor `alpha_num /
    /// alpha_den` must lie strictly between zero and one.
    pub alpha_den: u32,
    /// The starting temperature; above the floor.
    pub temperature_zero: u32,
    /// The floor temperature; positive. The walk stops when the
    /// temperature falls below it.
    pub temperature_end: u32,
    /// The step budget of one run.
    pub iteration: usize,
}

impl AnnealerConfig {
    /// The hyper parameters are consistent.
    pub open spec fn valid(&self) -> bool {
        &&& 1 <= self.alpha_num < self.alpha_den
        &&& 1 <= self.temperature_end < self.temperature_zero
    }
}

/// The state of one annealing walk: the solution currently held, and the
/// current temperature.
pub struct AnnealState<T> {
    /// The solution currently held.
    pub solution: Solution<T>,
    /// The current temperature.
    pub temperature: u32,
}

impl<T: Copy> AnnealState<T> {
    /// Builds the starting state: one solution drawn from the
    /// randomization strategy, held at the starting temperature.
    pub fn initial_random_state<S: Source<T>>(randness: S, temp0: u32) -> (st: Self)
        ensures
            st.solution@.len() == randness.len_spec(),
            st.temperature == temp0,
    {
        AnnealState { solution: Solution { bits: randness.generate() }, temperature: temp0 }
    }

    /// Cools the state by one step: the temperature is multiplied by the
    /// cooling factor `alpha_num / alpha_den` exactly once, rounding
    /// down. A factor below one never increases the temperature.
    pub fn update_temperature(&mut self, alpha_num: u32, alpha_den: u32)
        requires
            1 <= alpha_den,
            alpha_num < alpha_den,
        ensures
            final(self).temperature == old(self).temperature * alpha_num / (alpha_den as int),
            final(self).temperature <= old(self).temperature,
            final(self).solution == old(self).solution,
    {
        proof {
            let tt = old(self).temperature as int;
            assert(tt * alpha_num <= 0xffff_ffff * 0xffff_ffff) by (nonlinear_arith)
                requires
                    0 <= tt <= 0xffff_ffff,
                    0 <= alpha_num <= 0xffff_ffff,
            ;
        }
        let t = self.temperature as u64 * alpha_num as u64 / alpha_den as u64;
        proof {
            let tt = old(self).temperature as int;
            lemma_mul_inequality(alpha_num as int, alpha_den as int, tt);
            vstd::arithmetic::mul::lemma_mul_is_commutative(tt, alpha_num as int);
            vstd::arithmetic::mul::lemma_mul_is_commutative(tt, alpha_den as int);
            lemma_div_is_ordered(tt * alpha_num, tt * alpha_den, alpha_den as int);
            lemma_div_multiples_vanish(tt, alpha_den as int);
            assert(tt * alpha_num / (alpha_den as int) <= tt);
            assert(t == tt * alpha_num / (alpha_den as int));
        }
        self.temperature = t as u32;
    }

    /// One Metropolis step: proposes a random neighbor, scores it against
    /// the held solution, and accepts or rejects it by the acceptance
    /// rule on a fresh uniform draw — so a strictly better neighbor
    /// always replaces the held one. Whatever the draws, the temperature
    /// is untouched and the held solution keeps its multiset of bits.
    pub fn acceptance<F: Fitness<T>>(&mut self, f: &F)
        requires
            old(self).solution@.len() >= 1,
            f.fits(old(self).solution@.len()),
            old(self).temperature >= 1,
        ensures
            final(self).temperature == old(self).temperature,
            final(self).solution@.len() == old(self).solution@.len(),
            final(self).solution@.to_multiset() == old(self).solution@.to_multiset(),
            exists|nb: Seq<T>, d: int|
                metropolis_outcome(
                    f,
                    old(self).solution@,
                    old(self).temperature as int,
                    final(self).solution@,
                    nb,
                    d,
                ),
    {
        let neighbor = self.solution.neighbor();
        let sn = f.score(&neighbor.bits);
        let sc = f.score(&self.solution.bits);
        let delta = sn as i64 - sc as i64;
        let draw = rand_below(ACCEPT_SCALE);
        let ghost nb = neighbor@;
        let ghost d = draw as int;
        if accept_decision(delta, self.temperature, draw) {
            self.solution = neighbor;
        }
        proof {
            assert(metropolis_outcome(
                f,
                old(self).solution@,
                old(self).temperature as int,
                self.solution@,
                nb,
                d,
            ));
        }
    }
}

/// The cooling schedule run forward: the temperature that remains after
/// up to `steps` cooling steps, stopping early once the floor `t_end` is
/// crossed.
pub open spec fn run_temp(t: nat, t_end: nat, num: nat, den: nat, steps: nat) -> nat
    decreases steps,
{
    if steps == 0 || t < t_end {
        t
    } else {
        run_temp(t * num / den, t_end, num, den, (steps - 1) as nat)
    }
}

/// The cooling schedule never heats up: however many steps run, the
/// temperature that remains is at most the starting one.
pub proof fn lemma_run_temp_non_increasing(t: nat, t_end: nat, num: nat, den: nat, steps: nat)
    requires
        1 <= den,
        num < den,
    ensures
        run_temp(t, t_end, num, den, steps) <= t,
    decreases steps,
{
    if steps == 0 || t < t_end {
    } else {
        let ti = t as int;
        lemma_mul_inequality(num as int, den as int, ti);
        vstd::arithmetic::mul::lemma_mul_is_commutative(ti, num as int);
        vstd::arithmetic::mul::lemma_mul_is_commutative(ti, den as int);
        lemma_div_is_ordered(ti * num, ti * den, den as int);
        lemma_div_multiples_vanish(ti, den as int);
        assert(t * num / den <= t);
        lemma_run_temp_non_increasing(t * num / den, t_end, num, den, (steps - 1) as nat);
    }
}

/// The annealing engine: one state, the hyper parameters of the run, and
/// the fitness function.
pub struct Annealer<T, F> {
    /// The hyper parameters of the run.
    pub config: AnnealerConfig,
    /// The current state of the walk.
    pub state: AnnealState<T>,
    /// The fitness function.
    pub fitness: F,
}

impl<T: Copy, F: Fitness<T>> Annealer<T, F> {
    /// The engine's invariant: consistent hyper parameters, a non-empty
    /// solution, and a fitness function that admits it.
    pub open spec fn wf(&self) -> bool {
        &&& self.config.valid()
        &&& self.state.solution@.len() >= 1
        &&& self.fitness.fits(self.state.solution@.len())
    }

    /// Builds the engine: validates the cooling schedule and draws the
    /// starting solution from the randomization strategy at
    /// `temperature_zero`. Construction fails exactly on an inconsistent
    /// schedule, and a failure is a configuration error, never a panic.
    pub fn init<S: Source<T>>(config: AnnealerConfig, fitness: F, randness: S) -> (r: Result<
        Self,
        SaError,
    >)
        requires
            randness.len_spec() >= 1,
            fitness.fits(randness.len_spec()),
        ensures
            r is Ok <==> config.valid(),
            r matches Err(e) ==> e == SaError::InvalidSaConfig,
            r matches Ok(an) ==> {
                &&& an.wf()
                &&& an.config == config
                &&& an.fitness == fitness
                &&& an.state.temperature == config.temperature_zero
                &&& an.state.solution@.len() == randness.len_spec()
            },
    {
        if config.alpha_num < 1 || config.alpha_num >= config.alpha_den || config.temperature_end
            < 1 || config.temperature_end >= config.temperature_zero {
            return Err(SaError::InvalidSaConfig);
        }
        let state = AnnealState::initial_random_state(randness, config.temperature_zero);
        Ok(Annealer { config, state, fitness })
    }

    /// Runs the anneal loop: up to `iteration` steps, stopping early once
    /// the temperature falls below the floor. Each step runs one
    /// Metropolis acceptance and then cools the temperature exactly once,
    /// accepted or not. The final temperature is exactly the cooling
    /// schedule run to the stopping point, the held solution stays a
    /// permutation of the initial one, and the returned solution is the
    /// held one.
    pub fn anneal(&mut self) -> (r: Solution<T>)
        requires
            old(self).wf(),
        ensures
            final(self).wf(),
            final(self).config == old(self).config,
            final(self).fitness == old(self).fitness,
            final(self).state.temperature == run_temp(
                old(self).state.temperature as nat,
                old(self).config.temperature_end as nat,
                old(self).config.alpha_num as nat,
                old(self).config.alpha_den as nat,
                old(self).config.iteration as nat,
            ),
            final(self).state.temperature <= old(self).state.temperature,
            final(self).state.solution@.len() == old(self).state.solution@.len(),
            final(self).state.solution@.to_multiset() == old(self).state.solution@.to_multiset(),
            r@ == final(self).state.solution@,
    {
        let ghost orig = *self;
        let ghost t_end = orig.config.temperature_end as nat;
        let ghost num = orig.config.alpha_num as nat;
        let ghost den = orig.config.alpha_den as nat;
        let ghost budget = orig.config.iteration as nat;
        let mut it: usize = 0;
        while it < self.config.iteration && self.state.temperature >= self.config.temperature_end
            invariant
                it <= orig.config.iteration,
                budget == orig.config.iteration as nat,
                t_end == orig.config.temperature_end as nat,
                num == orig.config.alpha_num as nat,
                den == orig.config.alpha_den as nat,
                self.config == orig.config,
                self.fitness == orig.fitness,
                self.wf(),
                self.state.solution@.len() == orig.state.solution@.len(),
                self.state.solution@.to_multiset() == orig.state.solution@.to_multiset(),
                run_temp(
                    self.state.temperature as nat,
                    t_end,
                    num,
                    den,
                    (budget - it) as nat,
                ) == run_temp(orig.state.temperature as nat, t_end, num, den, budget),
            decreases self.config.iteration - it,
        {
            let ghost t_before = self.state.temperature as nat;
            self.state.acceptance(&self.fitness);
            self.state.update_temperature(self.config.alpha_num, self.config.alpha_den);
            proof {
                // One unfolding of the schedule: above the floor with
                // budget left, one cooling step runs.
                assert(it < budget);
                assert(t_before >= t_end);
                assert(self.state.temperature as nat == t_before * num / den);
                assert(run_temp(t_before, t_end, num, den, (budget - it) as nat) == run_temp(
                    self.state.temperature as nat,
                    t_end,
                    num,
                    den,
                    (budget - (it + 1)) as nat,
                ));
            }
            it = it + 1;
        }
        proof {
            // The schedule has stopped: either the budget is spent or
            // the floor is crossed, and either way it yields the
            // temperature now held.
            assert(run_temp(
                self.state.temperature as nat,
                t_end,
                num,
                den,
                (budget - it) as nat,
            ) == self.state.temperature as nat);
            lemma_run_temp_non_increasing(
                orig.state.temperature as nat,
                t_end,
                num,
                den,
                budget,
            );
        }
        self.state.solution.clone()
    }
}

} // verus!
