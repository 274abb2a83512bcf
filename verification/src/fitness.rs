//! The fitness callback of the optimizers.
//!
//! A fitness function maps an encoding to an orderable score. The engines
//! treat lower scores as better: ranking sorts ascending, and the annealer
//! accepts a neighbor unconditionally when its score strictly drops.
//!
//! The trait carries the score twice: once as a mathematical function of
//! the gene sequence ([`Fitness::score_spec`]), and once as executable code
//! ([`Fitness::score`]) proved to return exactly that function. The spec
//! side is what makes fitness *pure*: every contract of the engines speaks
//! of `score_spec`, so two evaluations of one encoding always agree.

use vstd::prelude::*;

verus! {

/// An encoding-specific fitness function, pure and total on every encoding
/// whose length it admits.
pub trait Fitness<T> {
    /// Whether encodings of length `len` are admitted; `score` may only be
    /// called on admitted lengths, so an implementation can rule out
    /// lengths whose score would not fit the result type.
    spec fn fits(&self, len: nat) -> bool;

    /// The score of an encoding, as a mathematical integer.
    spec fn score_spec(&self, genes: Seq<T>) -> int;

    /// Computes the score of an encoding.
    fn score(&self, genes: &Vec<T>) -> (r: i32)
        requires
            self.fits(genes@.len()),
        ensures
            r as int == self.score_spec(genes@),
    ;
}

/// The number of set bits in a boolean sequence.
pub open spec fn popcount(genes: Seq<bool>) -> int
    decreases genes.len(),
{
    if genes.len() == 0 {
        0
    } else {
        popcount(genes.drop_last()) + if genes.last() {
            1int
        } else {
            0int
        }
    }
}

/// The popcount of a sequence lies between zero and the sequence length.
pub proof fn lemma_popcount_bounds(genes: Seq<bool>)
    ensures
        0 <= popcount(genes) <= genes.len(),
    decreases genes.len(),
{
    if genes.len() > 0 {
        lemma_popcount_bounds(genes.drop_last());
    }
}

/// Scores a boolean encoding by its number of set bits.
pub struct Popcount;

impl Fitness<bool> for Popcount {
    open spec fn fits(&self, len: nat) -> bool {
        len <= i32::MAX
    }

    open spec fn score_spec(&self, genes: Seq<bool>) -> int {
        popcount(genes)
    }

    fn score(&self, genes: &Vec<bool>) -> (r: i32) {
        let mut count: i32 = 0;
        let mut k: usize = 0;
        while k < genes.len()
            invariant
                0 <= k <= genes@.len() <= i32::MAX,
                count == popcount(genes@.subrange(0, k as int)),
                0 <= count <= k,
            decreases genes@.len() - k,
        {
            proof {
                assert(genes@.subrange(0, k + 1).drop_last() =~= genes@.subrange(0, k as int));
                assert(genes@.subrange(0, k + 1).last() == genes@[k as int]);
            }
            if genes[k] {
                count = count + 1;
            }
            k = k + 1;
        }
        proof {
            assert(genes@.subrange(0, genes@.len() as int) =~= genes@);
        }
        count
    }
}

/// Scores a boolean encoding by its number of set bits, shifted down by
/// a fixed bias. With a positive bias the scores of sparse encodings are
/// negative, which exercises selection over signed scores.
pub struct BiasedPopcount {
    /// Subtracted from every popcount.
    pub bias: i32,
}

impl Fitness<bool> for BiasedPopcount {
    open spec fn fits(&self, len: nat) -> bool {
        &&& len <= 0x3fff_ffff
        &&& -0x3fff_ffff <= self.bias <= 0x3fff_ffff
    }

    open spec fn score_spec(&self, genes: Seq<bool>) -> int {
        popcount(genes) - self.bias
    }

    fn score(&self, genes: &Vec<bool>) -> (r: i32) {
        proof {
            lemma_popcount_bounds(genes@);
        }
        let p = Popcount.score(genes);
        p - self.bias
    }
}

} // verus!
