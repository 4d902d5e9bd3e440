//! The registry of polynomial oracles.
//!
//! An arena of polynomial descriptors indexed by a stable integer handle.
//! Virtual polynomials compose earlier entries only, so the composition
//! graph is acyclic by construction and every oracle has a finite
//! composition depth, bounded by the registry's declared maximum.

use vstd::prelude::*;

use crate::util::MAX_VARS;

verus! {

/// How an oracle's polynomial is defined.
#[derive(Clone, Copy, Debug, PartialEq, Eq, Structural)]
pub enum OracleVariant {
    /// A leaf polynomial bound by a commitment.
    Committed,
    /// The pointwise sum of two earlier oracles.
    Sum(usize, usize),
    /// The pointwise product of two earlier oracles.
    Product(usize, usize),
}

/// One registered polynomial descriptor.
#[derive(Clone, Copy, Debug, PartialEq, Eq, Structural)]
pub struct OracleMeta {
    pub n_vars: usize,
    pub variant: OracleVariant,
}

/// Composition depth of oracle `i`: zero for a leaf, one more than the
/// deeper constituent otherwise. Guarded so it is defined for every index.
pub open spec fn odepth(os: Seq<OracleMeta>, i: int) -> nat
    decreases i,
{
    if 0 <= i < os.len() {
        match os[i].variant {
            OracleVariant::Committed => 0,
            OracleVariant::Sum(a, b) => if a < i && b < i {
                1 + if odepth(os, a as int) >= odepth(os, b as int) {
                    odepth(os, a as int)
                } else {
                    odepth(os, b as int)
                }
            } else {
                0
            },
            OracleVariant::Product(a, b) => if a < i && b < i {
                1 + if odepth(os, a as int) >= odepth(os, b as int) {
                    odepth(os, a as int)
                } else {
                    odepth(os, b as int)
                }
            } else {
                0
            },
        }
    } else {
        0
    }
}

/// The oracle registry: an append-only arena plus its declared maximum
/// composition depth.
#[derive(Clone, Debug)]
pub struct MultilinearOracleSet {
    pub oracles: Vec<OracleMeta>,
    pub max_depth: usize,
}

impl MultilinearOracleSet {
    /// Every virtual oracle composes strictly earlier entries of the same
    /// arity, arities stay in range, and no composition is deeper than the
    /// declared maximum.
    pub open spec fn wf(self) -> bool {
        &&& forall|i: int|
            0 <= i < self.oracles@.len() ==> #[trigger] self.oracles@[i].n_vars <= MAX_VARS
        &&& forall|i: int|
            0 <= i < self.oracles@.len() ==> match #[trigger] self.oracles@[i].variant {
                OracleVariant::Committed => true,
                OracleVariant::Sum(a, b) => {
                    &&& a < i
                    &&& b < i
                    &&& self.oracles@[a as int].n_vars == self.oracles@[i].n_vars
                    &&& self.oracles@[b as int].n_vars == self.oracles@[i].n_vars
                },
                OracleVariant::Product(a, b) => {
                    &&& a < i
                    &&& b < i
                    &&& self.oracles@[a as int].n_vars == self.oracles@[i].n_vars
                    &&& self.oracles@[b as int].n_vars == self.oracles@[i].n_vars
                },
            }
        &&& forall|i: int|
            0 <= i < self.oracles@.len() ==> odepth(self.oracles@, i) <= self.max_depth
    }

    /// An empty registry with a declared depth bound.
    pub fn new(max_depth: usize) -> (r: Self)
        ensures
            r.wf(),
            r.oracles@.len() == 0,
            r.max_depth == max_depth,
    {
        MultilinearOracleSet { oracles: Vec::new(), max_depth }
    }

    /// Number of registered oracles.
    pub fn len(&self) -> (r: usize)
        ensures
            r == self.oracles@.len(),
    {
        self.oracles.len()
    }

    /// The descriptor of oracle `i`.
    pub fn get(&self, i: usize) -> (r: OracleMeta)
        requires
            i < self.oracles@.len(),
        ensures
            r == self.oracles@[i as int],
    {
        self.oracles[i]
    }

    /// Register a committed leaf oracle; returns its handle.
    pub fn add_committed(&mut self, n_vars: usize) -> (id: usize)
        requires
            old(self).wf(),
            n_vars <= MAX_VARS,
            old(self).oracles@.len() < usize::MAX,
        ensures
            final(self).wf(),
            final(self).max_depth == old(self).max_depth,
            id == old(self).oracles@.len(),
            final(self).oracles@ == old(self).oracles@.push(
                OracleMeta { n_vars, variant: OracleVariant::Committed },
            ),
    {
        let id = self.oracles.len();
        self.oracles.push(OracleMeta { n_vars, variant: OracleVariant::Committed });
        proof {
            lemma_odepth_push(old(self).oracles@, self.oracles@);
            assert(odepth(self.oracles@, id as int) == 0);
        }
        id
    }

    /// Register a virtual oracle composing `a` and `b`; returns its handle.
    /// The composition must stay within the declared depth bound.
    pub fn add_virtual(&mut self, variant: OracleVariant) -> (id: usize)
        requires
            old(self).wf(),
            old(self).oracles@.len() < usize::MAX,
            match variant {
                OracleVariant::Committed => false,
                OracleVariant::Sum(a, b) | OracleVariant::Product(a, b) => {
                    &&& a < old(self).oracles@.len()
                    &&& b < old(self).oracles@.len()
                    &&& old(self).oracles@[a as int].n_vars == old(self).oracles@[b as int].n_vars
                    &&& 1 + odepth(old(self).oracles@, a as int) <= old(self).max_depth
                    &&& 1 + odepth(old(self).oracles@, b as int) <= old(self).max_depth
                },
            },
        ensures
            final(self).wf(),
            final(self).max_depth == old(self).max_depth,
            id == old(self).oracles@.len(),
            match variant {
                OracleVariant::Committed => true,
                OracleVariant::Sum(a, b) | OracleVariant::Product(a, b) =>
                    final(self).oracles@ == old(self).oracles@.push(
                        OracleMeta {
                            n_vars: old(self).oracles@[a as int].n_vars,
                            variant,
                        },
                    ),
            },
    {
        let id = self.oracles.len();
        let n_vars = match variant {
            OracleVariant::Committed => 0,
            OracleVariant::Sum(a, _) => self.oracles[a].n_vars,
            OracleVariant::Product(a, _) => self.oracles[a].n_vars,
        };
        self.oracles.push(OracleMeta { n_vars, variant });
        proof {
            lemma_odepth_push(old(self).oracles@, self.oracles@);
        }
        id
    }
}

/// Appending an oracle leaves every earlier depth unchanged.
pub proof fn lemma_odepth_push(os: Seq<OracleMeta>, os2: Seq<OracleMeta>)
    requires
        os2.len() == os.len() + 1,
        forall|j: int| 0 <= j < os.len() ==> os2[j] == os[j],
    ensures
        forall|i: int| 0 <= i < os.len() ==> odepth(os2, i) == odepth(os, i),
{
    assert forall|i: int| 0 <= i < os.len() implies odepth(os2, i) == odepth(os, i) by {
        lemma_odepth_prefix(os, os2, i);
    }
}

/// Depth only reads entries at or below the index.
proof fn lemma_odepth_prefix(os: Seq<OracleMeta>, os2: Seq<OracleMeta>, i: int)
    requires
        os2.len() == os.len() + 1,
        forall|j: int| 0 <= j < os.len() ==> os2[j] == os[j],
        0 <= i < os.len(),
    ensures
        odepth(os2, i) == odepth(os, i),
    decreases i,
{
    match os[i].variant {
        OracleVariant::Committed => {},
        OracleVariant::Sum(a, b) | OracleVariant::Product(a, b) => {
            if a < i && b < i {
                lemma_odepth_prefix(os, os2, a as int);
                lemma_odepth_prefix(os, os2, b as int);
            }
        },
    }
}

} // verus!
