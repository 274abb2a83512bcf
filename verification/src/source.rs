//! The randomization strategy of the optimizers.
//!
//! A source produces one structurally valid encoding per call: a gene
//! vector of a fixed, positive length. The evolutionary engine draws one
//! encoding per population slot; the annealer draws one at construction.
//! Beyond the length nothing is promised — a source is free to draw from
//! the process-wide random number generator.

use crate::rng::rand_flip;
use vstd::prelude::*;

verus! {

/// An encoding-specific randomization strategy.
pub trait Source<T> {
    /// The length of every encoding this source produces.
    spec fn len_spec(&self) -> nat;

    /// Produces one encoding.
    fn generate(&self) -> (r: Vec<T>)
        ensures
            r@.len() == self.len_spec(),
    ;
}

/// Draws each gene as an independent random bit.
pub struct RandomBits {
    /// The length of every produced encoding.
    pub len: usize,
}

impl Source<bool> for RandomBits {
    open spec fn len_spec(&self) -> nat {
        self.len as nat
    }

    fn generate(&self) -> (r: Vec<bool>) {
        let mut genes: Vec<bool> = Vec::new();
        let mut k: usize = 0;
        while k < self.len
            invariant
                k <= self.len,
                genes@.len() == k,
            decreases self.len - k,
        {
            genes.push(rand_flip());
            k = k + 1;
        }
        genes
    }
}

/// Produces the fixed pattern `true, false, true, ...`: a deterministic
/// source, convenient wherever a reproducible starting point is wanted.
pub struct AlternatingBits {
    /// The length of every produced encoding.
    pub len: usize,
}

impl Source<bool> for AlternatingBits {
    open spec fn len_spec(&self) -> nat {
        self.len as nat
    }

    fn generate(&self) -> (r: Vec<bool>)
        ensures
            forall|i: int| 0 <= i < r@.len() ==> r@[i] == (i % 2 == 0),
    {
        let mut genes: Vec<bool> = Vec::new();
        let mut k: usize = 0;
        while k < self.len
            invariant
                k <= self.len,
                genes@.len() == k,
                forall|i: int| 0 <= i < k ==> genes@[i] == (i % 2 == 0),
            decreases self.len - k,
        {
            genes.push(k % 2 == 0);
            k = k + 1;
        }
        genes
    }
}

} // verus!
