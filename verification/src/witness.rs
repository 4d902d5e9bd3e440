//! Concrete witness storage for multilinear extensions.
//!
//! A lookup table from oracle handle to the oracle's evaluation data over
//! the boolean hypercube. The reduction may insert witnesses for newly
//! materialized sub-polynomials; existing entries are never altered.

use vstd::prelude::*;

verus! {

/// Witness data per oracle handle.
#[derive(Clone, Debug)]
pub struct MultilinearExtensionIndex {
    pub entries: Vec<Option<Vec<u16>>>,
}

impl MultilinearExtensionIndex {
    /// The stored evaluations of oracle `i`, if any.
    pub open spec fn spec_get(self, i: int) -> Option<Seq<u16>> {
        if 0 <= i < self.entries@.len() {
            match self.entries@[i] {
                Option::Some(v) => Option::Some(v@),
                Option::None => Option::None,
            }
        } else {
            Option::None
        }
    }

    /// An empty index.
    pub fn new() -> (r: Self)
        ensures
            r.entries@.len() == 0,
    {
        MultilinearExtensionIndex { entries: Vec::new() }
    }

    /// Whether oracle `i` has witness data.
    pub fn has(&self, i: usize) -> (r: bool)
        ensures
            r == self.spec_get(i as int).is_some(),
    {
        i < self.entries.len() && self.entries[i].is_some()
    }

    /// Borrow the witness data of oracle `i`.
    pub fn get(&self, i: usize) -> (r: &Vec<u16>)
        requires
            self.spec_get(i as int).is_some(),
        ensures
            r@ == self.spec_get(i as int).unwrap(),
    {
        match &self.entries[i] {
            Option::Some(v) => v,
            Option::None => unreached(),
        }
    }

    /// Store witness data for oracle `i`, growing the table as needed.
    pub fn set(&mut self, i: usize, evals: Vec<u16>)
        requires
            i < usize::MAX,
        ensures
            final(self).spec_get(i as int) == Option::Some(evals@),
            forall|j: int|
                0 <= j && j != i ==> final(self).spec_get(j) == old(self).spec_get(j),
    {
        while self.entries.len() <= i
            invariant
                i < usize::MAX,
                forall|j: int|
                    0 <= j < old(self).entries@.len() ==> self.entries@[j] == old(
                        self,
                    ).entries@[j],
                self.entries@.len() >= old(self).entries@.len(),
                forall|j: int|
                    old(self).entries@.len() <= j < self.entries@.len() ==> self.entries@[j]
                        is None,
            decreases i + 1 - self.entries.len(),
        {
            self.entries.push(Option::None);
        }
        self.entries.set(i, Option::Some(evals));
    }
}

} // verus!
