//! The limits of the table.

use vstd::prelude::*;

verus! {

/// What the table accepts: the least and the largest single bet, the largest
/// sum that one request may attach in one currency, and the currencies taken.
#[derive(Clone, Debug)]
pub struct Config {
    pub min_bet: u64,
    pub max_bet: u64,
    pub max_total: u64,
    pub supported_denoms: Vec<String>,
}

impl Config {
    /// Whether the table takes the currency `denom`.
    pub open spec fn supports(&self, denom: Seq<char>) -> bool {
        exists|i: int|
            0 <= i < self.supported_denoms.len() && (#[trigger] self.supported_denoms[i])@ == denom
    }

    /// Whether the table takes the currency `denom`.
    pub fn is_supported(&self, denom: &String) -> (r: bool)
        ensures
            r == self.supports(denom@),
    {
        let mut i: usize = 0;
        while i < self.supported_denoms.len()
            invariant
                i <= self.supported_denoms.len(),
                forall|j: int| 0 <= j < i ==> (#[trigger] self.supported_denoms[j])@ != denom@,
            decreases self.supported_denoms.len() - i,
        {
            if self.supported_denoms[i] == *denom {
                return true;
            }
            i += 1;
        }
        false
    }
}

} // verus!
