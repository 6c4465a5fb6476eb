//! What scoring needs of the matched markers.

use crate::join::{MatchedSnp, SnpStatus};
use crate::meta::MissingStrategy;
use vstd::prelude::*;

verus! {

/// The matched markers of a weight table, with the index into the genotype
/// file and the swap flag of each.
///
/// Row `i` of the weight matrix, index `i` and flag `i` belong to matched
/// marker `i`: they are made in one pass and kept together. The weights
/// themselves stay with the table that they were read from, and are found
/// there by the weight row of each matched marker.
#[derive(Debug)]
pub struct Weights {
    /// The matched markers.
    pub matched: Vec<MatchedSnp>,
    /// The index of each matched marker in the genotype file.
    pub sid_idx: Vec<isize>,
    /// Whether the genotypes of each matched marker are to be swapped.
    pub swap_vec: Vec<bool>,
    /// How missing calls are filled.
    pub missing_strategy: MissingStrategy,
    /// The names of the score columns.
    pub score_names: Vec<String>,
}

impl Weights {
    /// The three lists have one entry for each matched marker, each entry
    /// is that marker's, and no marker is unmatched.
    pub open spec fn wf(&self) -> bool {
        &&& self.sid_idx@.len() == self.matched@.len()
        &&& self.swap_vec@.len() == self.matched@.len()
        &&& forall|i: int|
            0 <= i < self.matched@.len() ==> {
                &&& (#[trigger] self.matched@[i]).status != SnpStatus::NoMatch
                &&& self.sid_idx@[i] == self.matched@[i].idx
                &&& self.swap_vec@[i] == (self.matched@[i].status == SnpStatus::Swap)
            }
    }

    /// Builds the weights of the matched markers, in their order.
    pub fn new(
        matched: Vec<MatchedSnp>,
        score_names: Vec<String>,
        missing_strategy: MissingStrategy,
    ) -> (r: Weights)
        requires
            forall|i: int|
                0 <= i < matched@.len() ==> (#[trigger] matched@[i]).status != SnpStatus::NoMatch,
        ensures
            r.wf(),
            r.matched@ == matched@,
            r.score_names@ == score_names@,
            r.missing_strategy == missing_strategy,
    {
        let mut sid_idx: Vec<isize> = Vec::new();
        let mut swap_vec: Vec<bool> = Vec::new();
        let mut i: usize = 0;
        while i < matched.len()
            invariant
                i <= matched.len(),
                sid_idx@.len() == i,
                swap_vec@.len() == i,
                forall|k: int|
                    0 <= k < i ==> {
                        &&& sid_idx@[k] == (#[trigger] matched@[k]).idx
                        &&& swap_vec@[k] == (matched@[k].status == SnpStatus::Swap)
                    },
            decreases matched.len() - i,
        {
            sid_idx.push(matched[i].idx);
            let swap: bool = match matched[i].status {
                SnpStatus::Swap => true,
                _ => false,
            };
            swap_vec.push(swap);
            i += 1;
        }
        Weights { matched, sid_idx, swap_vec, missing_strategy, score_names }
    }

    /// The number of matched markers.
    pub fn len(&self) -> (n: usize)
        ensures
            n == self.matched@.len(),
    {
        self.matched.len()
    }
}

} // verus!
