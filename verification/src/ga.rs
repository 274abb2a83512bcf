//! The generational evolutionary engine.
//!
//! An [`Evolution`] owns one [`Population`] and repeatedly replaces it with
//! the next generation. Each generation runs one strict cycle:
//!
//! 1. **rank** — sort the individuals by fitness, ascending, so the best
//!    (lowest-scoring) individual stands first;
//! 2. **select** — carry the top `elite_size` ranked individuals over
//!    verbatim and fill the remaining slots by roulette-wheel draws over
//!    the ranked order;
//! 3. **breed** — pass the elites through unchanged and pair the remaining
//!    slots mirror-wise (slot `i` with slot `pop_size - i - 1`), applying
//!    either segment or permutation-preserving crossover;
//! 4. **mutate** — swap two random gene positions of each individual,
//!    independently, with probability `mutation_rate`.
//!
//! A population records where it stands in this cycle in its
//! [`PopulationStatus`]; a phase invoked out of order reports a sequencing
//! error and leaves the population untouched.

use crate::error::GaError;
use crate::fitness::Fitness;
use crate::perm::{is_swap_of, lemma_swap_preserves_multiset, swapped};
use crate::rng::{rand_below, rand_index};
use crate::source::Source;
use vstd::arithmetic::mul::lemma_mul_inequality;
use vstd::laws_eq::obeys_concrete_eq;
use vstd::multiset::Multiset;
use vstd::prelude::*;

verus! {

/// One candidate: an ordered sequence of genes of a copyable type.
#[derive(Debug)]
pub struct Individual<T> {
    /// The genes of the individual.
    pub genes: Vec<T>,
}

impl<T> View for Individual<T> {
    type V = Seq<T>;

    open spec fn view(&self) -> Seq<T> {
        self.genes@
    }
}

impl<T: Copy> Clone for Individual<T> {
    /// Clones the genes verbatim.
    fn clone(&self) -> (r: Self)
        ensures
            r@ == self@,
    {
        let mut genes: Vec<T> = Vec::new();
        let mut k: usize = 0;
        while k < self.genes.len()
            invariant
                k <= self.genes@.len(),
                genes@ == self.genes@.subrange(0, k as int),
            decreases self.genes@.len() - k,
        {
            genes.push(self.genes[k]);
            proof {
                assert(genes@ =~= self.genes@.subrange(0, k + 1));
            }
            k = k + 1;
        }
        proof {
            assert(genes@ =~= self.genes@);
        }
        Individual { genes }
    }
}

impl<T: Copy + PartialEq> Individual<T> {
    /// Perturbs this individual in place by exchanging the genes at two
    /// random positions. The multiset of genes is preserved.
    pub fn mutate(&mut self)
        requires
            old(self)@.len() >= 1,
        ensures
            is_swap_of(old(self)@, final(self)@),
            final(self)@.len() == old(self)@.len(),
            final(self)@.to_multiset() == old(self)@.to_multiset(),
    {
        let idx1 = rand_index(self.genes.len());
        let idx2 = rand_index(self.genes.len());
        let g1 = self.genes[idx1];
        let g2 = self.genes[idx2];
        self.genes.set(idx1, g2);
        self.genes.set(idx2, g1);
        proof {
            assert(swapped(old(self)@, self@, idx1 as int, idx2 as int));
            lemma_swap_preserves_multiset(old(self)@, self@, idx1 as int, idx2 as int);
        }
    }

    /// Segment crossover: two random cut points mark a segment of this
    /// parent; the child is the other parent's genes outside the segment
    /// positions, concatenated with this parent's segment. Genes may be
    /// duplicated in the child.
    pub fn breed1(&self, another: &Self) -> (child: Self)
        requires
            self@.len() == another@.len(),
            self@.len() >= 1,
        ensures
            child@.len() == self@.len(),
            exists|s: int, e: int|
                0 <= s <= e <= self@.len() && child@ == another@.subrange(0, s)
                    + another@.subrange(e, another@.len() as int) + self@.subrange(s, e),
    {
        let len = self.genes.len();
        let idx1 = rand_index(len);
        let idx2 = rand_index(len);
        let start = if idx1 < idx2 {
            idx1
        } else {
            idx2
        };
        let end = if idx1 < idx2 {
            idx2
        } else {
            idx1
        };
        let mut genes: Vec<T> = Vec::new();
        let mut k: usize = 0;
        while k < start
            invariant
                k <= start <= end <= len,
                another@.len() == len,
                genes@ == another@.subrange(0, k as int),
            decreases start - k,
        {
            genes.push(another.genes[k]);
            proof {
                assert(genes@ =~= another@.subrange(0, k + 1));
            }
            k = k + 1;
        }
        proof {
            assert(genes@ =~= another@.subrange(0, start as int) + another@.subrange(
                end as int,
                end as int,
            ));
        }
        let mut k: usize = end;
        while k < len
            invariant
                start <= end <= k <= len,
                another@.len() == len,
                genes@ == another@.subrange(0, start as int) + another@.subrange(
                    end as int,
                    k as int,
                ),
            decreases len - k,
        {
            genes.push(another.genes[k]);
            proof {
                assert(genes@ =~= another@.subrange(0, start as int) + another@.subrange(
                    end as int,
                    k + 1,
                ));
            }
            k = k + 1;
        }
        proof {
            assert(genes@ =~= another@.subrange(0, start as int) + another@.subrange(
                end as int,
                len as int,
            ) + self@.subrange(start as int, start as int));
        }
        let mut k: usize = start;
        while k < end
            invariant
                start <= k <= end <= len,
                self@.len() == len,
                another@.len() == len,
                genes@ == another@.subrange(0, start as int) + another@.subrange(
                    end as int,
                    len as int,
                ) + self@.subrange(start as int, k as int),
            decreases end - k,
        {
            genes.push(self.genes[k]);
            proof {
                assert(genes@ =~= another@.subrange(0, start as int) + another@.subrange(
                    end as int,
                    len as int,
                ) + self@.subrange(start as int, k + 1));
            }
            k = k + 1;
        }
        let child = Individual { genes };
        proof {
            let s = start as int;
            let e = end as int;
            assert(0 <= s <= e <= self@.len() && child@ == another@.subrange(0, s)
                + another@.subrange(e, another@.len() as int) + self@.subrange(s, e));
        }
        child
    }

    /// Permutation-preserving crossover: a random segment of this parent
    /// is kept, and the remaining slots are filled from the other parent
    /// in order, skipping the genes the segment already holds. On parents
    /// that are duplicate-free permutations of one shared gene set the
    /// child is again a permutation of that set.
    pub fn breed2(&self, another: &Self) -> (child: Self)
        requires
            obeys_concrete_eq::<T>(),
            self@.len() == another@.len(),
            self@.len() >= 1,
            self@.no_duplicates(),
            another@.no_duplicates(),
            self@.to_multiset() == another@.to_multiset(),
        ensures
            child@.len() == self@.len(),
            child@.to_multiset() == self@.to_multiset(),
            exists|s: int, e: int|
                0 <= s <= e <= self@.len() && filtered_fill(child@, another@, self@.subrange(s, e)),
    {
        let len = self.genes.len();
        let idx1 = rand_index(len);
        let idx2 = rand_index(len);
        let start = if idx1 < idx2 {
            idx1
        } else {
            idx2
        };
        let end = if idx1 < idx2 {
            idx2
        } else {
            idx1
        };
        let ghost seg = self@.subrange(start as int, end as int);
        let mut segment: Vec<T> = Vec::new();
        let mut k: usize = start;
        while k < end
            invariant
                start <= k <= end <= len,
                self@.len() == len,
                segment@ == self@.subrange(start as int, k as int),
            decreases end - k,
        {
            segment.push(self.genes[k]);
            proof {
                assert(segment@ =~= self@.subrange(start as int, k + 1));
            }
            k = k + 1;
        }
        let mut genes: Vec<T> = Vec::new();
        proof {
            broadcast use vstd::seq_lib::group_to_multiset_ensures;
            broadcast use vstd::multiset::group_multiset_axioms;

            assert(genes@.to_multiset() =~= Multiset::<T>::empty());
            assert(another@.subrange(0, 0).to_multiset() =~= Multiset::<T>::empty());
            reveal(Seq::filter);
            assert(genes@ =~= another@.subrange(0, 0).filter(outside(seg)));
        }
        let mut k: usize = 0;
        while k < len
            invariant
                k <= len,
                another@.len() == len,
                obeys_concrete_eq::<T>(),
                seg == self@.subrange(start as int, end as int),
                0 <= start as int <= end as int <= len,
                segment@ == seg,
                genes@ == another@.subrange(0, k as int).filter(outside(seg)),
                forall|x: T| #[trigger]
                    genes@.to_multiset().count(x) == if seg.contains(x) {
                        0nat
                    } else {
                        another@.subrange(0, k as int).to_multiset().count(x)
                    },
            decreases len - k,
        {
            let ghost gprev = genes@;
            let ghost bk = another@[k as int];
            let inseg = vec_contains(&segment, another.genes[k]);
            if !inseg {
                genes.push(another.genes[k]);
            }
            proof {
                broadcast use vstd::seq_lib::group_to_multiset_ensures;
                broadcast use vstd::multiset::group_multiset_axioms;

                assert(another@.subrange(0, k + 1) =~= another@.subrange(0, k as int).push(bk));
                assert(another@.subrange(0, k as int).push(bk).to_multiset() == another@.subrange(
                    0,
                    k as int,
                ).to_multiset().insert(bk));
                if !inseg {
                    assert(genes@ == gprev.push(bk));
                    assert(gprev.push(bk).to_multiset() == gprev.to_multiset().insert(bk));
                }
                // The filter view of the scanned prefix grows with it.
                reveal(Seq::filter);
                assert(another@.subrange(0, k + 1).drop_last() =~= another@.subrange(0, k as int));
                assert(another@.subrange(0, k + 1).last() == bk);
                assert(outside(seg)(bk) == !seg.contains(bk));
                assert(genes@ == another@.subrange(0, k + 1).filter(outside(seg)));
                assert forall|x: T| #[trigger]
                    genes@.to_multiset().count(x) == (if seg.contains(x) {
                        0nat
                    } else {
                        another@.subrange(0, k + 1).to_multiset().count(x)
                    }) by {
                    if x == bk {
                        if inseg {
                            assert(seg.contains(x));
                        } else {
                            assert(!seg.contains(x));
                            assert(genes@.to_multiset().count(x) == gprev.to_multiset().count(x)
                                + 1);
                        }
                    } else {
                        if !inseg {
                            assert(genes@.to_multiset().count(x) == gprev.to_multiset().count(x));
                        }
                    }
                }
            }
            k = k + 1;
        }
        let ghost filtered = genes@;
        proof {
            assert(another@.subrange(0, len as int) =~= another@);
            assert(filtered == another@.filter(outside(seg)));
            assert(genes@ =~= filtered + self@.subrange(start as int, start as int));
        }
        let mut k: usize = start;
        while k < end
            invariant
                start <= k <= end <= len,
                self@.len() == len,
                genes@ == filtered + self@.subrange(start as int, k as int),
            decreases end - k,
        {
            genes.push(self.genes[k]);
            proof {
                assert(genes@ =~= filtered + self@.subrange(start as int, k + 1));
            }
            k = k + 1;
        }
        let child = Individual { genes };
        proof {
            broadcast use vstd::seq_lib::group_to_multiset_ensures;
            broadcast use vstd::multiset::group_multiset_axioms;

            let pre = self@.subrange(0, start as int);
            let post = self@.subrange(end as int, len as int);
            assert(self@ =~= (pre + seg) + post);
            vstd::seq_lib::lemma_multiset_commutative(pre + seg, post);
            vstd::seq_lib::lemma_multiset_commutative(pre, seg);
            vstd::seq_lib::lemma_multiset_commutative(filtered, seg);
            self@.lemma_multiset_has_no_duplicates();
            assert(child@ == filtered + seg);
            assert forall|x: T| #[trigger]
                child@.to_multiset().count(x) == another@.to_multiset().count(x) by {
                assert(child@.to_multiset().count(x) == filtered.to_multiset().count(x)
                    + seg.to_multiset().count(x));
                assert(self@.to_multiset().count(x) == pre.to_multiset().count(x)
                    + seg.to_multiset().count(x) + post.to_multiset().count(x));
                if seg.contains(x) {
                    assert(seg.to_multiset().count(x) > 0);
                    assert(self@.to_multiset().count(x) > 0);
                    assert(self@.to_multiset().contains(x));
                    assert(self@.to_multiset().count(x) == 1);
                    assert(seg.to_multiset().count(x) == 1);
                    assert(filtered.to_multiset().count(x) == 0);
                    assert(another@.to_multiset().count(x) == 1);
                } else {
                    assert(seg.to_multiset().count(x) == 0);
                    assert(filtered.to_multiset().count(x) == another@.to_multiset().count(x));
                }
            }
            assert(child@.to_multiset() =~= another@.to_multiset());
            assert(child@.len() == child@.to_multiset().len());
            assert(another@.len() == another@.to_multiset().len());
            // The structural shape, witnessed by the drawn cut points.
            assert(0 <= start as int <= end as int <= self@.len() && filtered_fill(
                child@,
                another@,
                self@.subrange(start as int, end as int),
            ));
        }
        child
    }
}

/// Whether some gene of `v` equals `x`. The gene type's `==` must decide
/// equality of the values themselves.
#[verifier::loop_isolation(false)]
fn vec_contains<T: Copy + PartialEq>(v: &Vec<T>, x: T) -> (r: bool)
    requires
        obeys_concrete_eq::<T>(),
    ensures
        r == v@.contains(x),
{
    proof {
        reveal(vstd::laws_eq::obeys_concrete_eq);
    }
    let mut k: usize = 0;
    while k < v.len()
        invariant
            k <= v@.len(),
            forall|m: int| 0 <= m < k ==> v@[m] != x,
        decreases v@.len() - k,
    {
        if v[k] == x {
            proof {
                assert(v@[k as int] == x);
            }
            return true;
        }
        k = k + 1;
    }
    proof {
        assert(forall|m: int| 0 <= m < v@.len() ==> v@[m] != x);
    }
    false
}

/// The lifecycle phase a population last completed. Phases advance
/// strictly in order within one generation cycle.
#[derive(Debug, Clone, Copy, PartialEq, Eq, Structural)]
pub enum PopulationStatus {
    /// Freshly built from the randomization strategy.
    Initialized,
    /// Sorted by fitness, best individual first.
    Ranked,
    /// Elites kept, remaining slots drawn by roulette.
    Selected,
    /// Children bred from mirrored parent pairs.
    Breeded,
    /// Individuals perturbed by random gene swaps.
    Mutated,
}

/// The hyper parameters of the evolutionary engine.
#[derive(Debug, PartialEq, Copy, Clone, Eq, Structural)]
pub struct EvolutionConfig {
    /// Population size; at least one.
    pub pop_size: usize,
    /// How many top-ranked individuals are carried over verbatim; at most
    /// `pop_size`.
    pub elite_size: usize,
    /// Mutation rate, in percent from 0 to 100.
    pub mutation_rate: u32,
    /// How many generation cycles one run drives.
    pub generations: usize,
}

impl EvolutionConfig {
    /// The hyper parameters are consistent.
    pub open spec fn valid(&self) -> bool {
        &&& self.pop_size >= 1
        &&& self.elite_size <= self.pop_size
        &&& self.mutation_rate <= 100
    }
}

/// Which crossover operator breeding applies.
#[derive(Debug, Clone, Copy, PartialEq, Eq, Structural)]
pub enum Crossover {
    /// Segment crossover: a random segment of one parent, the rest of the
    /// other. May duplicate genes.
    Segment,
    /// Permutation-preserving crossover: the child is a permutation of the
    /// shared gene set of its parents.
    Permutation,
}

/// The genes that stand outside a segment.
pub open spec fn outside<T>(seg: Seq<T>) -> spec_fn(T) -> bool {
    |g: T| !seg.contains(g)
}

/// `child` is `donor` filtered of the segment's genes, the donor's order
/// kept, with the segment appended — the shape of a permutation-
/// preserving crossover child.
pub open spec fn filtered_fill<T>(child: Seq<T>, donor: Seq<T>, seg: Seq<T>) -> bool {
    child == donor.filter(outside(seg)) + seg
}

/// How one bred child relates to its parent pair under the given
/// crossover operator: a cut segment of the first parent, completed from
/// the second — by position for segment crossover, by filtering for the
/// permutation-preserving one.
pub open spec fn crossover_child<T>(
    crossover: Crossover,
    child: Individual<T>,
    p1: Individual<T>,
    p2: Individual<T>,
) -> bool {
    match crossover {
        Crossover::Segment => exists|s: int, e: int|
            0 <= s <= e <= p1@.len() && child@ == p2@.subrange(0, s) + p2@.subrange(
                e,
                p2@.len() as int,
            ) + p1@.subrange(s, e),
        Crossover::Permutation => exists|s: int, e: int|
            0 <= s <= e <= p1@.len() && filtered_fill(child@, p2@, p1@.subrange(s, e)),
    }
}

/// `ind` carries the genes of some individual of `from`.
pub open spec fn draws_one<T>(ind: Individual<T>, from: Seq<Individual<T>>) -> bool {
    exists|m: int| 0 <= m < from.len() && ind@ == (#[trigger] from[m])@
}

/// Every individual of `sel` carries the genes of some individual of
/// `from`.
pub open spec fn drawn_from<T>(sel: Seq<Individual<T>>, from: Seq<Individual<T>>) -> bool {
    forall|q: int| 0 <= q < sel.len() ==> draws_one(#[trigger] sel[q], from)
}

/// The individuals stand in ascending fitness order: the best (lowest)
/// score first.
pub open spec fn sorted_by_score<T, F: Fitness<T>>(f: &F, inds: Seq<Individual<T>>) -> bool {
    forall|a: int, b: int|
        0 <= a < b < inds.len() ==> #[trigger] f.score_spec(inds[a]@) <= #[trigger] f.score_spec(
            inds[b]@,
        )
}

/// The cumulative mass of a score table through slot `k`, inclusive.
pub open spec fn cum(table: Seq<int>, k: int) -> int
    decreases k + 1,
{
    if k < 0 {
        0
    } else {
        cum(table, k - 1) + table[k]
    }
}

/// The total mass of a score table.
pub open spec fn table_total(table: Seq<int>) -> int {
    cum(table, table.len() - 1)
}

/// The draw `d` reaches slot `j`: the slot's scaled cumulative share of
/// the total mass covers the drawn percentage.
pub open spec fn reaches(table: Seq<int>, d: int, j: int) -> bool {
    d * table_total(table) <= 100 * cum(table, j)
}

/// The roulette-wheel rule: with positive total mass the draw picks the
/// first slot it reaches; with zero or negative total mass — where no
/// wheel exists — every slot is admissible, the uniform fallback.
pub open spec fn roulette_slot(table: Seq<int>, d: int, j: int) -> bool {
    if table_total(table) > 0 {
        &&& 0 <= j < table.len()
        &&& reaches(table, d, j)
        &&& forall|m: int| 0 <= m < j ==> !(#[trigger] reaches(table, d, m))
    } else {
        0 <= j < table.len()
    }
}

/// An executable score table, widened to mathematical integers.
pub open spec fn widened(table: Seq<i64>) -> Seq<int> {
    Seq::new(table.len(), |k: int| table[k] as int)
}

/// The scores of the individuals under `f`, as a table in slot order.
pub open spec fn score_table<T, F: Fitness<T>>(f: &F, inds: Seq<Individual<T>>) -> Seq<int> {
    Seq::new(inds.len(), |k: int| f.score_spec(inds[k]@))
}

/// The least entry of a table, over the slots up to `k`, inclusive.
pub open spec fn min_through(table: Seq<int>, k: int) -> int
    decreases k,
{
    if k <= 0 {
        table[0]
    } else if table[k] < min_through(table, k - 1) {
        table[k]
    } else {
        min_through(table, k - 1)
    }
}

/// The normalized score table: every entry shifted down by the least
/// one, so the table carries only non-negative mass.
pub open spec fn normalized_table(table: Seq<int>) -> Seq<int> {
    Seq::new(table.len(), |k: int| table[k] - min_through(table, table.len() - 1))
}

/// `ind` fills one roulette slot drawn from `from` under the table: for
/// some draw, it carries the genes of a slot the roulette rule admits.
pub open spec fn roulette_draw_of<T>(
    ind: Individual<T>,
    from: Seq<Individual<T>>,
    table: Seq<int>,
) -> bool {
    exists|j: int, d: int|
        {
            &&& 0 <= j < from.len()
            &&& 0 <= d < 100
            &&& #[trigger] roulette_slot(table, d, j)
            &&& ind@ == from[j]@
        }
}

/// Some individual's genes `b`, scoring no higher than every individual
/// of `olds`, were carried into the slot: the slot holds `b` verbatim,
/// or `b` hit by one mutation swap.
pub open spec fn elite_carried<T, F: Fitness<T>>(
    f: &F,
    olds: Seq<Individual<T>>,
    slot: Seq<T>,
    b: Seq<T>,
) -> bool {
    &&& forall|j: int|
        0 <= j < olds.len() ==> f.score_spec(b) <= f.score_spec((#[trigger] olds[j])@)
    &&& (slot == b || is_swap_of(b, slot))
}

/// `news` opens with the top of `ranked`, a fitness-sorted permutation of
/// `olds`: the elite prefix stands verbatim, in rank order.
pub open spec fn elites_from_ranking<T, F: Fitness<T>>(
    f: &F,
    olds: Seq<Individual<T>>,
    news: Seq<Individual<T>>,
    elite: int,
    ranked: Seq<Individual<T>>,
) -> bool {
    &&& ranked.to_multiset() == olds.to_multiset()
    &&& ranked.len() == olds.len()
    &&& sorted_by_score(f, ranked)
    &&& 0 <= elite <= news.len()
    &&& elite <= ranked.len()
    &&& forall|k: int| 0 <= k < elite ==> (#[trigger] news[k])@ == ranked[k]@
}

/// Computes the score of each individual, in order, widened to `i64`.
fn compute_scores<T: Copy, F: Fitness<T>>(f: &F, inds: &Vec<Individual<T>>) -> (scores: Vec<i64>)
    requires
        forall|k: int| 0 <= k < inds@.len() ==> f.fits((#[trigger] inds@[k])@.len()),
    ensures
        scores@.len() == inds@.len(),
        forall|k: int| 0 <= k < inds@.len() ==> scores@[k] == f.score_spec(inds@[k]@),
        forall|k: int|
            0 <= k < scores@.len() ==> -0x8000_0000 <= #[trigger] scores@[k] <= 0x7fff_ffff,
{
    let mut scores: Vec<i64> = Vec::new();
    let mut k: usize = 0;
    while k < inds.len()
        invariant
            k <= inds@.len(),
            scores@.len() == k,
            forall|m: int| 0 <= m < inds@.len() ==> f.fits((#[trigger] inds@[m])@.len()),
            forall|m: int| 0 <= m < k ==> scores@[m] == f.score_spec(inds@[m]@),
            forall|m: int| 0 <= m < k ==> -0x8000_0000 <= #[trigger] scores@[m] <= 0x7fff_ffff,
        decreases inds@.len() - k,
    {
        let s = f.score(&inds[k].genes);
        scores.push(s as i64);
        k = k + 1;
    }
    scores
}

/// The deterministic half of a roulette draw: scans the cumulative
/// masses and returns the first slot the drawn percentage reaches. With
/// positive total mass the last slot always reaches, so the scan always
/// finds one.
fn roulette_index(scores: &Vec<i64>, total: i128, pick: u64) -> (j: usize)
    requires
        scores@.len() >= 1,
        forall|k: int|
            0 <= k < scores@.len() ==> -0x1_0000_0000 <= #[trigger] scores@[k] <= 0x1_0000_0000,
        pick < 100,
        total == table_total(widened(scores@)),
        0 < total <= 0x1000000000000000000000000,
    ensures
        j < scores@.len(),
        roulette_slot(widened(scores@), pick as int, j as int),
{
    let ghost w = widened(scores@);
    let n = scores.len();
    proof {
        assert(0 <= pick * total <= 100 * 0x1000000000000000000000000i128) by (nonlinear_arith)
            requires
                0 <= pick < 100,
                0 < total <= 0x1000000000000000000000000i128,
        ;
    }
    let mut prefix: i128 = 0;
    let mut j: usize = 0;
    while j < n
        invariant
            j <= n,
            n == scores@.len(),
            1 <= n,
            w == widened(scores@),
            forall|m: int|
                0 <= m < scores@.len() ==> -0x1_0000_0000 <= #[trigger] scores@[m]
                    <= 0x1_0000_0000,
            pick < 100,
            total == table_total(w),
            total > 0,
            prefix == cum(w, j - 1),
            -(j as i128) * 0x1_0000_0000 <= prefix <= (j as i128) * 0x1_0000_0000,
            0 <= pick * total <= 100 * 0x1000000000000000000000000i128,
            forall|m: int| 0 <= m < j ==> !(#[trigger] reaches(w, pick as int, m)),
        decreases n - j,
    {
        proof {
            assert(w[j as int] == scores@[j as int] as int);
            assert(cum(w, j as int) == cum(w, j - 1) + w[j as int]);
        }
        prefix = prefix + scores[j] as i128;
        if (pick as i128) * total <= 100 * prefix {
            proof {
                assert(reaches(w, pick as int, j as int));
            }
            return j;
        }
        proof {
            assert(!reaches(w, pick as int, j as int));
        }
        j = j + 1;
    }
    proof {
        // The scan cannot fall off the end: the last slot's cumulative
        // mass is the whole total, which every draw below one hundred
        // percent reaches — yet the invariant says no slot was reached.
        lemma_mul_inequality(pick as int, 100, total as int);
        assert(cum(w, n - 1) == table_total(w));
        assert(reaches(w, pick as int, n - 1));
        assert(false);
    }
    vstd::pervasive::unreached()
}

/// One roulette-wheel draw over a score table: a uniform percentage is
/// drawn, and the first slot whose cumulative share of the total mass
/// reaches the draw is picked. When the total mass is not positive — an
/// all-zero table, or negative entries outweighing the positive ones —
/// the draw falls back to a uniform pick over all slots, so that a slot
/// is always returned.
fn pick_slot(scores: &Vec<i64>) -> (j: usize)
    requires
        scores@.len() >= 1,
        forall|k: int|
            0 <= k < scores@.len() ==> -0x1_0000_0000 <= #[trigger] scores@[k] <= 0x1_0000_0000,
    ensures
        j < scores@.len(),
        exists|d: int| 0 <= d < 100 && #[trigger] roulette_slot(widened(scores@), d, j as int),
{
    let ghost w = widened(scores@);
    let n = scores.len();
    let mut total: i128 = 0;
    let mut k: usize = 0;
    while k < n
        invariant
            k <= n,
            n == scores@.len(),
            w == widened(scores@),
            forall|m: int|
                0 <= m < scores@.len() ==> -0x1_0000_0000 <= #[trigger] scores@[m] <= 0x1_0000_0000,
            total == cum(w, k - 1),
            -(k as i128) * 0x1_0000_0000 <= total <= (k as i128) * 0x1_0000_0000,
        decreases n - k,
    {
        proof {
            assert(w[k as int] == scores@[k as int] as int);
            assert(cum(w, k as int) == cum(w, k - 1) + w[k as int]);
        }
        total = total + scores[k] as i128;
        k = k + 1;
    }
    proof {
        assert(total == table_total(w));
    }
    if total > 0 {
        let pick = rand_below(100);
        let j = roulette_index(scores, total, pick);
        proof {
            assert(0 <= (pick as int) < 100);
            assert(roulette_slot(widened(scores@), pick as int, j as int));
        }
        j
    } else {
        let j = rand_index(n);
        proof {
            assert(roulette_slot(widened(scores@), 0int, j as int));
        }
        j
    }
}

/// An ordered collection of individuals, together with the lifecycle phase
/// it last completed.
pub struct Population<T> {
    /// The individuals, in rank order once ranked.
    pub individuals: Vec<Individual<T>>,
    /// The lifecycle phase last completed.
    pub status: PopulationStatus,
}

impl<T: Copy + PartialEq> Population<T> {
    /// Every individual holds the same positive number of genes.
    pub open spec fn uniform(&self) -> bool {
        &&& self.individuals@.len() >= 1
        &&& self.individuals@[0]@.len() >= 1
        &&& forall|k: int|
            0 <= k < self.individuals@.len() ==> (#[trigger] self.individuals@[k])@.len()
                == self.individuals@[0]@.len()
    }

    /// The common gene count of the individuals.
    pub open spec fn gene_len(&self) -> nat {
        self.individuals@[0]@.len()
    }

    /// Every individual holds pairwise-distinct genes, and all individuals
    /// share one multiset of genes: the shape ordering encodings live in,
    /// and what permutation-preserving crossover asks of its parents.
    pub open spec fn permutation_family(&self) -> bool {
        &&& forall|k: int|
            0 <= k < self.individuals@.len() ==> (#[trigger] self.individuals@[k])@.no_duplicates()
        &&& forall|k: int, m: int|
            0 <= k < self.individuals@.len() && 0 <= m < self.individuals@.len() ==> (
            #[trigger] self.individuals@[k])@.to_multiset() == (
            #[trigger] self.individuals@[m])@.to_multiset()
    }

    /// The fitness function admits every individual.
    pub open spec fn scorable<F: Fitness<T>>(&self, f: &F) -> bool {
        forall|k: int|
            0 <= k < self.individuals@.len() ==> f.fits((#[trigger] self.individuals@[k])@.len())
    }

    /// Builds a population of `pop_size` fresh individuals drawn from the
    /// randomization strategy.
    pub fn initial_random_pop<S: Source<T>>(pop_size: usize, randness: S) -> (p: Self)
        ensures
            p.status == PopulationStatus::Initialized,
            p.individuals@.len() == pop_size,
            forall|k: int|
                0 <= k < pop_size ==> (#[trigger] p.individuals@[k])@.len() == randness.len_spec(),
    {
        let mut individuals: Vec<Individual<T>> = Vec::new();
        let mut k: usize = 0;
        while k < pop_size
            invariant
                k <= pop_size,
                individuals@.len() == k,
                forall|m: int|
                    0 <= m < k ==> (#[trigger] individuals@[m])@.len() == randness.len_spec(),
            decreases pop_size - k,
        {
            individuals.push(Individual { genes: randness.generate() });
            k = k + 1;
        }
        Population { individuals, status: PopulationStatus::Initialized }
    }

    /// Sorts the individuals in place by fitness, ascending, so that the
    /// best (lowest-scoring) individual stands first. The individuals
    /// themselves are only reordered: their multiset is preserved.
    pub fn rank<F: Fitness<T>>(&mut self, f: &F)
        requires
            old(self).scorable(f),
        ensures
            final(self).status == PopulationStatus::Ranked,
            final(self).individuals@.len() == old(self).individuals@.len(),
            final(self).individuals@.to_multiset() == old(self).individuals@.to_multiset(),
            final(self).scorable(f),
            sorted_by_score(f, final(self).individuals@),
    {
        broadcast use vstd::seq_lib::group_to_multiset_ensures;
        broadcast use vstd::multiset::group_multiset_axioms;

        let ghost orig = self.individuals@;
        let n = self.individuals.len();
        if n <= 1 {
            self.status = PopulationStatus::Ranked;
            return;
        }
        let mut i: usize = 1;
        while i < n
            invariant
                1 <= i <= n,
                2 <= n,
                self.individuals@.len() == n,
                self.individuals@.to_multiset() == orig.to_multiset(),
                self.scorable(f),
                sorted_by_score(f, self.individuals@.subrange(0, i as int)),
            decreases n - i,
        {
            let ghost before = self.individuals@;
            let x = self.individuals.remove(i);
            let sx = f.score(&x.genes);
            let ghost mid = self.individuals@;
            proof {
                assert(mid == before.remove(i as int));
                assert(forall|m: int| 0 <= m < i ==> mid[m] == before[m]);
                assert forall|m: int| 0 <= m < mid.len() implies f.fits(
                    (#[trigger] mid[m])@.len(),
                ) by {
                    if m < i {
                        assert(mid[m] == before[m]);
                    } else {
                        assert(mid[m] == before[m + 1]);
                    }
                }
            }
            let mut j: usize = 0;
            while j < i && f.score(&self.individuals[j].genes) <= sx
                invariant
                    j <= i,
                    i < n,
                    self.individuals@ == mid,
                    mid.len() == n - 1,
                    self.scorable(f),
                    sx == f.score_spec(x@),
                    forall|m: int|
                        0 <= m < j ==> #[trigger] f.score_spec(mid[m]@) <= f.score_spec(x@),
                decreases i - j,
            {
                j = j + 1;
            }
            self.individuals.insert(j, x);
            proof {
                broadcast use vstd::seq_lib::group_to_multiset_ensures;
                broadcast use vstd::multiset::group_multiset_axioms;

                let va = self.individuals@;
                assert(va == mid.insert(j as int, x));
                // The multiset is restored: the removed element went back in.
                assert(before.contains(before[i as int]));
                assert(before.to_multiset().count(before[i as int]) > 0);
                assert(mid.insert(j as int, x).to_multiset() == mid.to_multiset().insert(x));
                assert(before.remove(i as int).to_multiset() == before.to_multiset().remove(
                    before[i as int],
                ));
                assert(va.to_multiset() =~= before.to_multiset());
                // Every element still fits the fitness function.
                assert forall|m: int| 0 <= m < va.len() implies f.fits(
                    (#[trigger] va[m])@.len(),
                ) by {
                    if m < j {
                        assert(va[m] == mid[m]);
                    } else if m == j {
                        assert(va[m] == x);
                        assert(before[i as int] == x);
                    } else {
                        assert(va[m] == mid[m - 1]);
                    }
                }
                // The sorted prefix grew by one.
                assert forall|a: int, b: int| 0 <= a < b < i + 1 implies f.score_spec(
                    #[trigger] va.subrange(0, i + 1)[a]@,
                ) <= f.score_spec(#[trigger] va.subrange(0, i + 1)[b]@) by {
                    assert(forall|m: int| 0 <= m < i ==> mid[m] == before[m]);
                    assert(forall|m: int|
                        0 <= m < i + 1 ==> #[trigger] va.subrange(0, i + 1)[m] == va[m]);
                    assert(forall|m: int|
                        0 <= m < i ==> f.score_spec(#[trigger] before.subrange(0, i as int)[m]@)
                            == f.score_spec(before[m]@));
                    if j < i {
                        // The scan stopped on a strictly larger score.
                        assert(f.score_spec(mid[j as int]@) > f.score_spec(x@));
                    }
                    if b == j {
                        assert(va[b] == x);
                        assert(f.score_spec(va[a]@) <= f.score_spec(x@));
                    } else if a == j {
                        assert(va[a] == x);
                        assert(va[b] == mid[b - 1]);
                        assert(f.score_spec(mid[j as int]@) <= f.score_spec(mid[b - 1]@));
                    } else if a < j && b > j {
                        assert(va[a] == mid[a]);
                        assert(va[b] == mid[b - 1]);
                        assert(f.score_spec(mid[a]@) <= f.score_spec(x@));
                        assert(f.score_spec(mid[j as int]@) <= f.score_spec(mid[b - 1]@));
                    } else if b < j {
                        assert(va[a] == mid[a] && va[b] == mid[b]);
                    } else {
                        assert(va[a] == mid[a - 1] && va[b] == mid[b - 1]);
                    }
                }
            }
            i = i + 1;
        }
        proof {
            assert(self.individuals@.subrange(0, n as int) =~= self.individuals@);
        }
        self.status = PopulationStatus::Ranked;
    }

    /// Fills a new generation from this one: the first `elite_size`
    /// individuals verbatim, the remaining slots by roulette draws over
    /// the given score table.
    fn fill_from_table(&self, config: &EvolutionConfig, table: &Vec<i64>) -> (selected: Vec<
        Individual<T>,
    >)
        requires
            config.valid(),
            self.individuals@.len() == config.pop_size,
            table@.len() == config.pop_size,
            forall|k: int|
                0 <= k < table@.len() ==> -0x1_0000_0000 <= #[trigger] table@[k] <= 0x1_0000_0000,
        ensures
            selected@.len() == config.pop_size,
            forall|k: int|
                0 <= k < config.elite_size ==> (#[trigger] selected@[k])@
                    == self.individuals@[k]@,
            drawn_from(selected@, self.individuals@),
            forall|k: int|
                config.elite_size <= k < selected@.len() ==> roulette_draw_of(
                    #[trigger] selected@[k],
                    self.individuals@,
                    widened(table@),
                ),
    {
        let mut selected: Vec<Individual<T>> = Vec::new();
        let mut k: usize = 0;
        while k < config.elite_size
            invariant
                k <= config.elite_size <= config.pop_size,
                self.individuals@.len() == config.pop_size,
                selected@.len() == k,
                forall|m: int|
                    0 <= m < k ==> (#[trigger] selected@[m])@ == self.individuals@[m]@,
            decreases config.elite_size - k,
        {
            selected.push(self.individuals[k].clone());
            k = k + 1;
        }
        proof {
            // The elite prefix names its own slot as witness.
            assert forall|q: int| 0 <= q < selected@.len() implies draws_one(
                #[trigger] selected@[q],
                self.individuals@,
            ) by {
                assert(selected@[q]@ == (#[trigger] self.individuals@[q])@);
            }
        }
        while selected.len() < config.pop_size
            invariant
                config.elite_size <= selected@.len() <= config.pop_size,
                self.individuals@.len() == config.pop_size,
                1 <= config.pop_size,
                table@.len() == config.pop_size,
                forall|m: int|
                    0 <= m < table@.len() ==> -0x1_0000_0000 <= #[trigger] table@[m]
                        <= 0x1_0000_0000,
                forall|m: int|
                    0 <= m < config.elite_size ==> (#[trigger] selected@[m])@
                        == self.individuals@[m]@,
                drawn_from(selected@, self.individuals@),
                forall|q: int|
                    config.elite_size <= q < selected@.len() ==> roulette_draw_of(
                        #[trigger] selected@[q],
                        self.individuals@,
                        widened(table@),
                    ),
            decreases config.pop_size - selected@.len(),
        {
            let ghost before_push = selected@;
            let j = pick_slot(table);
            selected.push(self.individuals[j].clone());
            proof {
                assert forall|q: int| 0 <= q < selected@.len() implies draws_one(
                    #[trigger] selected@[q],
                    self.individuals@,
                ) by {
                    if q < before_push.len() {
                        assert(selected@[q] == before_push[q]);
                        assert(draws_one(before_push[q], self.individuals@));
                    } else {
                        assert(selected@[q]@ == (#[trigger] self.individuals@[j as int])@);
                    }
                }
                let d = choose|d: int|
                    0 <= d < 100 && #[trigger] roulette_slot(widened(table@), d, j as int);
                assert forall|q: int|
                    config.elite_size <= q < selected@.len() implies roulette_draw_of(
                    #[trigger] selected@[q],
                    self.individuals@,
                    widened(table@),
                ) by {
                    if q < before_push.len() {
                        assert(selected@[q] == before_push[q]);
                        assert(roulette_draw_of(
                            before_push[q],
                            self.individuals@,
                            widened(table@),
                        ));
                    } else {
                        assert(0 <= j < self.individuals@.len() && 0 <= d < 100
                            && roulette_slot(widened(table@), d, j as int) && selected@[q]@
                            == self.individuals@[j as int]@);
                    }
                }
            }
        }
        selected
    }

    /// Selects the parents of the next generation from a ranked
    /// population: the top `elite_size` ranked individuals are copied
    /// verbatim, and each remaining slot is filled by a roulette-wheel
    /// draw over the cumulative shares of the raw scores — negative scores
    /// enter the sums unnormalized, exactly as they are. On a population
    /// that is not ranked this reports a sequencing error and changes
    /// nothing.
    pub fn selection<F: Fitness<T>>(&self, config: &EvolutionConfig, f: &F) -> (r: Result<
        Self,
        GaError,
    >)
        requires
            self.scorable(f),
            self.individuals@.len() == config.pop_size,
            config.valid(),
        ensures
            r is Ok <==> self.status == PopulationStatus::Ranked,
            r matches Err(e) ==> e == GaError::SelectionBeforeRank,
            r matches Ok(p) ==> {
                &&& p.status == PopulationStatus::Selected
                &&& p.individuals@.len() == config.pop_size
                &&& forall|k: int|
                    0 <= k < config.elite_size ==> (#[trigger] p.individuals@[k])@
                        == self.individuals@[k]@
                &&& drawn_from(p.individuals@, self.individuals@)
                &&& forall|k: int|
                    config.elite_size <= k < p.individuals@.len() ==> roulette_draw_of(
                        #[trigger] p.individuals@[k],
                        self.individuals@,
                        score_table(f, self.individuals@),
                    )
            },
    {
        if self.status != PopulationStatus::Ranked {
            return Err(GaError::SelectionBeforeRank);
        }
        let table = compute_scores(f, &self.individuals);
        let selected = self.fill_from_table(config, &table);
        proof {
            // The executable table is exactly the score table.
            assert(widened(table@) =~= score_table(f, self.individuals@));
        }
        Ok(Population { individuals: selected, status: PopulationStatus::Selected })
    }

    /// The normalized variant of [`Population::selection`]: before the
    /// cumulative table is built, every score is shifted down by the
    /// minimum score, so the table is built from non-negative shares and
    /// stays monotone even when scores are negative. Selection behavior on
    /// all-non-negative scores with minimum zero matches the raw variant.
    pub fn selection_normalized<F: Fitness<T>>(&self, config: &EvolutionConfig, f: &F) -> (r:
        Result<Self, GaError>)
        requires
            self.scorable(f),
            self.individuals@.len() == config.pop_size,
            config.valid(),
        ensures
            r is Ok <==> self.status == PopulationStatus::Ranked,
            r matches Err(e) ==> e == GaError::SelectionBeforeRank,
            r matches Ok(p) ==> {
                &&& p.status == PopulationStatus::Selected
                &&& p.individuals@.len() == config.pop_size
                &&& forall|k: int|
                    0 <= k < config.elite_size ==> (#[trigger] p.individuals@[k])@
                        == self.individuals@[k]@
                &&& drawn_from(p.individuals@, self.individuals@)
                &&& forall|k: int|
                    config.elite_size <= k < p.individuals@.len() ==> roulette_draw_of(
                        #[trigger] p.individuals@[k],
                        self.individuals@,
                        normalized_table(score_table(f, self.individuals@)),
                    )
            },
    {
        if self.status != PopulationStatus::Ranked {
            return Err(GaError::SelectionBeforeRank);
        }
        let raw = compute_scores(f, &self.individuals);
        let ghost wr = widened(raw@);
        let mut lowest: i64 = raw[0];
        proof {
            assert(wr[0] == raw@[0] as int);
        }
        let mut k: usize = 1;
        while k < raw.len()
            invariant
                1 <= k <= raw@.len(),
                wr == widened(raw@),
                forall|m: int|
                    0 <= m < raw@.len() ==> -0x8000_0000 <= #[trigger] raw@[m] <= 0x7fff_ffff,
                -0x8000_0000 <= lowest <= 0x7fff_ffff,
                lowest == min_through(wr, k - 1),
            decreases raw@.len() - k,
        {
            proof {
                assert(wr[k as int] == raw@[k as int] as int);
                assert(min_through(wr, k as int) == if wr[k as int] < min_through(wr, k - 1) {
                    wr[k as int]
                } else {
                    min_through(wr, k - 1)
                });
            }
            if raw[k] < lowest {
                lowest = raw[k];
            }
            k = k + 1;
        }
        let mut table: Vec<i64> = Vec::new();
        let mut k: usize = 0;
        while k < raw.len()
            invariant
                k <= raw@.len(),
                table@.len() == k,
                wr == widened(raw@),
                forall|m: int|
                    0 <= m < raw@.len() ==> -0x8000_0000 <= #[trigger] raw@[m] <= 0x7fff_ffff,
                -0x8000_0000 <= lowest <= 0x7fff_ffff,
                forall|m: int|
                    0 <= m < k ==> -0x1_0000_0000 <= #[trigger] table@[m] <= 0x1_0000_0000,
                forall|m: int| 0 <= m < k ==> #[trigger] table@[m] == raw@[m] - lowest,
            decreases raw@.len() - k,
        {
            table.push(raw[k] - lowest);
            k = k + 1;
        }
        let selected = self.fill_from_table(config, &table);
        proof {
            // The executable table is exactly the normalized score table.
            let st = score_table(f, self.individuals@);
            assert(wr =~= st);
            assert forall|m: int| 0 <= m < table@.len() implies #[trigger] widened(table@)[m]
                == normalized_table(st)[m] by {
                assert(widened(table@)[m] == table@[m] as int);
                assert(wr[m] == raw@[m] as int);
            }
            assert(widened(table@) =~= normalized_table(st));
        }
        Ok(Population { individuals: selected, status: PopulationStatus::Selected })
    }

    /// Breeds the next generation from a selected population. The first
    /// `elite_size` individuals pass through unchanged; each remaining
    /// slot holds a child of the mirrored parent pair (slot `i` with slot
    /// `pop_size - i - 1`), bred with the given crossover operator. On a
    /// population that is not selected this reports a sequencing error
    /// and changes nothing.
    pub fn breed(&self, config: &EvolutionConfig, crossover: Crossover) -> (r: Result<
        Self,
        GaError,
    >)
        requires
            config.valid(),
            self.individuals@.len() == config.pop_size,
            self.uniform(),
            crossover == Crossover::Permutation ==> obeys_concrete_eq::<T>()
                && self.permutation_family(),
        ensures
            r is Ok <==> self.status == PopulationStatus::Selected,
            r matches Err(e) ==> e == GaError::BreedBeforeSelection,
            r matches Ok(p) ==> {
                &&& p.status == PopulationStatus::Breeded
                &&& p.individuals@.len() == config.pop_size
                &&& forall|k: int|
                    0 <= k < config.elite_size ==> (#[trigger] p.individuals@[k])@
                        == self.individuals@[k]@
                &&& forall|k: int|
                    0 <= k < p.individuals@.len() ==> (#[trigger] p.individuals@[k])@.len()
                        == self.gene_len()
                &&& crossover == Crossover::Permutation ==> forall|k: int|
                    0 <= k < p.individuals@.len() ==> (
                    #[trigger] p.individuals@[k])@.to_multiset()
                        == self.individuals@[0]@.to_multiset()
                &&& forall|i: int|
                    0 <= i < config.pop_size - config.elite_size ==> crossover_child(
                        crossover,
                        #[trigger] p.individuals@[config.elite_size + i],
                        self.individuals@[i],
                        self.individuals@[config.pop_size - 1 - i],
                    )
            },
    {
        if self.status != PopulationStatus::Selected {
            return Err(GaError::BreedBeforeSelection);
        }
        let mut child: Vec<Individual<T>> = Vec::new();
        let mut k: usize = 0;
        while k < config.elite_size
            invariant
                k <= config.elite_size <= config.pop_size,
                self.individuals@.len() == config.pop_size,
                self.uniform(),
                child@.len() == k,
                forall|m: int| 0 <= m < k ==> (#[trigger] child@[m])@ == self.individuals@[m]@,
            decreases config.elite_size - k,
        {
            child.push(self.individuals[k].clone());
            k = k + 1;
        }
        let pairs = config.pop_size - config.elite_size;
        let mut i: usize = 0;
        while i < pairs
            invariant
                i <= pairs,
                pairs == config.pop_size - config.elite_size,
                config.elite_size <= config.pop_size,
                1 <= config.pop_size,
                self.individuals@.len() == config.pop_size,
                self.uniform(),
                crossover == Crossover::Permutation ==> obeys_concrete_eq::<T>()
                    && self.permutation_family(),
                child@.len() == config.elite_size + i,
                forall|m: int|
                    0 <= m < config.elite_size ==> (#[trigger] child@[m])@
                        == self.individuals@[m]@,
                forall|m: int|
                    0 <= m < child@.len() ==> (#[trigger] child@[m])@.len() == self.gene_len(),
                crossover == Crossover::Permutation ==> forall|m: int|
                    0 <= m < child@.len() ==> (#[trigger] child@[m])@.to_multiset()
                        == self.individuals@[0]@.to_multiset(),
                forall|m: int|
                    0 <= m < i ==> crossover_child(
                        crossover,
                        #[trigger] child@[config.elite_size + m],
                        self.individuals@[m],
                        self.individuals@[config.pop_size - 1 - m],
                    ),
            decreases pairs - i,
        {
            let p1 = &self.individuals[i];
            let p2 = &self.individuals[config.pop_size - i - 1];
            let c = match crossover {
                Crossover::Segment => p1.breed1(p2),
                Crossover::Permutation => p1.breed2(p2),
            };
            proof {
                // The crossover contract speaks of the borrowed parents;
                // they are the individuals at the mirrored pair of slots.
                assert(*p1 == self.individuals@[i as int]);
                assert(*p2 == self.individuals@[config.pop_size - 1 - i as int]);
                assert(crossover_child(crossover, c, *p1, *p2));
            }
            child.push(c);
            i = i + 1;
        }
        Ok(Population { individuals: child, status: PopulationStatus::Breeded })
    }

    /// Perturbs each individual independently: with probability
    /// `mutation_rate` its genes at two random positions are exchanged,
    /// otherwise it stays as it is. Each individual keeps its multiset of
    /// genes. On a population that is not bred this reports a sequencing
    /// error and changes nothing.
    pub fn mutate(&mut self, config: &EvolutionConfig) -> (r: Result<(), GaError>)
        requires
            config.valid(),
            forall|k: int|
                0 <= k < old(self).individuals@.len() ==> (
                #[trigger] old(self).individuals@[k])@.len() >= 1,
        ensures
            r is Ok <==> old(self).status == PopulationStatus::Breeded,
            r matches Err(e) ==> e == GaError::MutateBeforeBreed && *final(self) == *old(self),
            r is Ok ==> {
                &&& final(self).status == PopulationStatus::Mutated
                &&& final(self).individuals@.len() == old(self).individuals@.len()
                &&& forall|k: int|
                    0 <= k < old(self).individuals@.len() ==> (
                    #[trigger] final(self).individuals@[k])@.len()
                        == old(self).individuals@[k]@.len()
                &&& forall|k: int|
                    0 <= k < old(self).individuals@.len() ==> (
                    #[trigger] final(self).individuals@[k])@.to_multiset()
                        == old(self).individuals@[k]@.to_multiset()
                &&& forall|k: int|
                    0 <= k < old(self).individuals@.len() ==> ((
                    #[trigger] final(self).individuals@[k])@ == old(self).individuals@[k]@
                        || is_swap_of(old(self).individuals@[k]@, final(self).individuals@[k]@))
                &&& config.mutation_rate == 0 ==> forall|k: int|
                    0 <= k < old(self).individuals@.len() ==> (
                    #[trigger] final(self).individuals@[k])@ == old(self).individuals@[k]@
            },
    {
        if self.status != PopulationStatus::Breeded {
            return Err(GaError::MutateBeforeBreed);
        }
        let n = self.individuals.len();
        let mut k: usize = 0;
        while k < n
            invariant
                k <= n,
                self.individuals@.len() == n,
                n == old(self).individuals@.len(),
                config.mutation_rate <= 100,
                self.status == old(self).status,
                forall|m: int|
                    0 <= m < n ==> (#[trigger] old(self).individuals@[m])@.len() >= 1,
                forall|m: int|
                    k <= m < n ==> #[trigger] self.individuals@[m] == old(self).individuals@[m],
                forall|m: int|
                    0 <= m < k ==> (#[trigger] self.individuals@[m])@.len()
                        == old(self).individuals@[m]@.len(),
                forall|m: int|
                    0 <= m < k ==> (#[trigger] self.individuals@[m])@.to_multiset()
                        == old(self).individuals@[m]@.to_multiset(),
                forall|m: int|
                    0 <= m < k ==> ((#[trigger] self.individuals@[m])@
                        == old(self).individuals@[m]@ || is_swap_of(
                        old(self).individuals@[m]@,
                        self.individuals@[m]@,
                    )),
                config.mutation_rate == 0 ==> forall|m: int|
                    0 <= m < k ==> (#[trigger] self.individuals@[m])@
                        == old(self).individuals@[m]@,
            decreases n - k,
        {
            let draw = rand_below(100);
            if draw < config.mutation_rate as u64 {
                let mut ind = self.individuals[k].clone();
                ind.mutate();
                self.individuals.set(k, ind);
            }
            k = k + 1;
        }
        self.status = PopulationStatus::Mutated;
        Ok(())
    }

    /// The individual at rank zero: the best of a population that has
    /// completed a full cycle. On a population in any earlier phase this
    /// reports a sequencing error and changes nothing.
    pub fn best_individual(&self) -> (r: Result<Individual<T>, GaError>)
        requires
            self.individuals@.len() >= 1,
        ensures
            r is Ok <==> self.status == PopulationStatus::Mutated,
            r matches Ok(ind) ==> ind@ == self.individuals@[0]@,
            r matches Err(e) ==> e == GaError::BestIndividualNotReady,
    {
        if self.status == PopulationStatus::Mutated {
            Ok(self.individuals[0].clone())
        } else {
            Err(GaError::BestIndividualNotReady)
        }
    }
}

/// The evolution engine: one population, the hyper parameters of the run,
/// and the fitness function, driven through a fixed number of generation
/// cycles.
pub struct Evolution<T, F> {
    /// The hyper parameters of the run.
    pub config: EvolutionConfig,
    /// The current population.
    pub population: Population<T>,
    /// The fitness function.
    pub fitness: F,
}

impl<T: Copy + PartialEq, F: Fitness<T>> Evolution<T, F> {
    /// The common gene count of the individuals.
    pub open spec fn gene_len(&self) -> nat {
        self.population.gene_len()
    }

    /// The engine's invariant: consistent hyper parameters, a population
    /// of exactly `pop_size` individuals of one positive gene count, and
    /// a fitness function that admits that gene count.
    pub open spec fn wf(&self) -> bool {
        &&& self.config.valid()
        &&& self.population.individuals@.len() == self.config.pop_size
        &&& self.population.uniform()
        &&& self.fitness.fits(self.gene_len())
    }

    /// Builds the engine: validates the hyper parameters and draws
    /// `pop_size` fresh individuals from the randomization strategy.
    /// Construction fails exactly on inconsistent hyper parameters, and
    /// a failure is a configuration error, never a panic.
    pub fn init<S: Source<T>>(config: EvolutionConfig, fitness: F, randness: S) -> (r: Result<
        Self,
        GaError,
    >)
        requires
            randness.len_spec() >= 1,
            fitness.fits(randness.len_spec()),
        ensures
            r is Ok <==> config.valid(),
            r matches Err(e) ==> e == GaError::InvalidGaConfig,
            r matches Ok(ev) ==> {
                &&& ev.wf()
                &&& ev.config == config
                &&& ev.fitness == fitness
                &&& ev.population.status == PopulationStatus::Initialized
                &&& ev.gene_len() == randness.len_spec()
            },
    {
        if config.pop_size < 1 || config.elite_size > config.pop_size || config.mutation_rate
            > 100 {
            return Err(GaError::InvalidGaConfig);
        }
        let population = Population::initial_random_pop(config.pop_size, randness);
        Ok(Evolution { config, population, fitness })
    }

    /// Advances the engine by one generation: ranks the current
    /// population, selects, breeds with segment crossover, mutates, and
    /// lets the result replace the population. The population size is
    /// preserved. With at least one elite and a zero mutation rate, the
    /// new generation's first individual scores no higher than every
    /// individual of the old generation.
    pub fn next_generation(&mut self)
        requires
            old(self).wf(),
        ensures
            final(self).wf(),
            final(self).config == old(self).config,
            final(self).fitness == old(self).fitness,
            final(self).gene_len() == old(self).gene_len(),
            final(self).population.status == PopulationStatus::Mutated,
            final(self).population.individuals@.len() == old(self).config.pop_size,
            old(self).config.elite_size >= 1 && old(self).config.mutation_rate == 0
                ==> forall|j: int|
                0 <= j < old(self).population.individuals@.len() ==> final(self).fitness.score_spec(
                    final(self).population.individuals@[0]@,
                ) <= final(self).fitness.score_spec(
                    (#[trigger] old(self).population.individuals@[j])@,
                ),
            old(self).config.elite_size >= 1 ==> exists|b: Seq<T>|
                elite_carried(
                    &old(self).fitness,
                    old(self).population.individuals@,
                    final(self).population.individuals@[0]@,
                    b,
                ),
            old(self).config.mutation_rate == 0 ==> exists|ranked: Seq<Individual<T>>|
                elites_from_ranking(
                    &old(self).fitness,
                    old(self).population.individuals@,
                    final(self).population.individuals@,
                    old(self).config.elite_size as int,
                    ranked,
                ),
    {
        let ghost orig = self.population.individuals@;
        let ghost glen = self.population.gene_len();
        proof {
            // The fitness function admits every individual: they all
            // share the one admitted gene count.
            assert forall|k: int| 0 <= k < orig.len() implies self.fitness.fits(
                (#[trigger] orig[k])@.len(),
            ) by {
                assert(orig[k]@.len() == glen);
            }
        }
        self.population.rank(&self.fitness);
        let ghost ranked = self.population.individuals@;
        proof {
            // Ranking only permuted the individuals: each still holds
            // the common gene count.
            assert forall|k: int| 0 <= k < ranked.len() implies (#[trigger] ranked[k])@.len()
                == glen by {
                crate::perm::lemma_permutation_index(orig, ranked, k);
                let m = choose|m: int| 0 <= m < orig.len() && orig[m] == ranked[k];
                assert((#[trigger] orig[m])@.len() == glen);
            }
        }
        let selected = match self.population.selection(&self.config, &self.fitness) {
            Ok(p) => p,
            Err(_) => vstd::pervasive::unreached(),
        };
        proof {
            // Every selected individual carries some ranked individual's
            // genes, so the selected population is uniform as well.
            assert forall|k: int| 0 <= k < selected.individuals@.len() implies (
            #[trigger] selected.individuals@[k])@.len() == glen by {
                assert(draws_one(selected.individuals@[k], ranked));
                let m = choose|m: int|
                    0 <= m < ranked.len() && selected.individuals@[k]@ == (#[trigger] ranked[m])@;
                assert(ranked[m]@.len() == glen);
            }
            assert(selected.uniform());
        }
        let breeded = match selected.breed(&self.config, Crossover::Segment) {
            Ok(p) => p,
            Err(_) => vstd::pervasive::unreached(),
        };
        let mut next = breeded;
        let ghost before_mutation = next.individuals@;
        proof {
            assert(selected.gene_len() == glen);
            assert forall|k: int| 0 <= k < before_mutation.len() implies (
            #[trigger] before_mutation[k])@.len() >= 1 by {
                assert(before_mutation[k]@.len() == glen);
            }
        }
        match next.mutate(&self.config) {
            Ok(_) => {},
            Err(_) => {
                proof {
                    assert(false);
                }
            },
        }
        self.population = next;
        proof {
            assert(self.population.uniform());
            let f = &self.fitness;
            if self.config.elite_size >= 1 {
                // Slot zero descends from the best-ranked old individual:
                // the ranking put the lowest score first, selection and
                // breeding carried it verbatim, and mutation at most
                // swapped two of its genes.
                assert(self.population.individuals@[0]@ == before_mutation[0]@ || is_swap_of(
                    before_mutation[0]@,
                    self.population.individuals@[0]@,
                ));
                assert(before_mutation[0]@ == selected.individuals@[0]@);
                assert(selected.individuals@[0]@ == ranked[0]@);
                assert forall|j: int| 0 <= j < orig.len() implies f.score_spec(ranked[0]@)
                    <= f.score_spec((#[trigger] orig[j])@) by {
                    crate::perm::lemma_permutation_index(ranked, orig, j);
                    let m = choose|m: int| 0 <= m < ranked.len() && ranked[m] == orig[j];
                    if m > 0 {
                        assert(f.score_spec(ranked[0]@) <= f.score_spec(ranked[m]@));
                    }
                }
                assert(elite_carried(f, orig, self.population.individuals@[0]@, ranked[0]@));
            }
            if self.config.mutation_rate == 0 {
                // With no mutation, the whole elite prefix of the ranking
                // stands verbatim at the front of the new generation.
                assert forall|k: int| 0 <= k < self.config.elite_size implies (
                #[trigger] self.population.individuals@[k])@ == ranked[k]@ by {
                    assert(self.population.individuals@[k]@ == before_mutation[k]@);
                    assert(before_mutation[k]@ == selected.individuals@[k]@);
                    assert(selected.individuals@[k]@ == ranked[k]@);
                }
                assert(elites_from_ranking(
                    f,
                    orig,
                    self.population.individuals@,
                    self.config.elite_size as int,
                    ranked,
                ));
            }
        }
    }

    /// Runs the configured number of generation cycles and returns the
    /// individual standing at rank zero of the final generation — the
    /// best of the last generation, not the best ever observed. With no
    /// cycle run and no prior run completed there is no such individual,
    /// and a sequencing error is reported; the engine can always report
    /// a best individual once `generations >= 1`.
    pub fn evolute(&mut self) -> (r: Result<Individual<T>, GaError>)
        requires
            old(self).wf(),
        ensures
            final(self).wf(),
            final(self).config == old(self).config,
            final(self).fitness == old(self).fitness,
            final(self).gene_len() == old(self).gene_len(),
            final(self).population.individuals@.len() == old(self).config.pop_size,
            old(self).config.generations == 0 ==> *final(self) == *old(self),
            old(self).config.generations >= 1 ==> final(self).population.status
                == PopulationStatus::Mutated,
            r is Ok <==> (old(self).config.generations >= 1 || old(self).population.status
                == PopulationStatus::Mutated),
            r matches Err(e) ==> e == GaError::BestIndividualNotReady,
            r matches Ok(ind) ==> ind@ == final(self).population.individuals@[0]@,
            old(self).config.generations >= 1 && old(self).config.elite_size >= 1 && old(
                self
            ).config.mutation_rate == 0 ==> forall|j: int|
                0 <= j < old(self).config.pop_size ==> final(self).fitness.score_spec(
                    final(self).population.individuals@[0]@,
                ) <= final(self).fitness.score_spec(
                    (#[trigger] old(self).population.individuals@[j])@,
                ),
    {
        let ghost orig = *self;
        let mut g: usize = 0;
        while g < self.config.generations
            invariant
                g <= orig.config.generations,
                self.config == orig.config,
                self.fitness == orig.fitness,
                self.wf(),
                g == 0 ==> *self == orig,
                self.gene_len() == orig.gene_len(),
                g >= 1 ==> self.population.status == PopulationStatus::Mutated,
                g >= 1 ==> self.population.individuals@.len() == orig.config.pop_size,
                orig.config.elite_size >= 1 && orig.config.mutation_rate == 0 && g >= 1
                    ==> forall|j: int|
                    0 <= j < orig.config.pop_size ==> self.fitness.score_spec(
                        self.population.individuals@[0]@,
                    ) <= self.fitness.score_spec(
                        (#[trigger] orig.population.individuals@[j])@,
                    ),
            decreases self.config.generations - g,
        {
            let ghost prev = self.population.individuals@;
            self.next_generation();
            proof {
                if orig.config.elite_size >= 1 && orig.config.mutation_rate == 0 && g >= 1 {
                    // The new best scores no higher than the previous
                    // best, which already scored no higher than every
                    // individual of the first generation.
                    assert(self.fitness.score_spec(self.population.individuals@[0]@)
                        <= self.fitness.score_spec((#[trigger] prev[0])@));
                }
            }
            g = g + 1;
        }
        self.population.best_individual()
    }
}

} // verus!
