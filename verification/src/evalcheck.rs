//! The evalcheck prover: reduction of evaluation claims against the oracle
//! registry.
//!
//! A claim on a committed polynomial becomes a terminal committed-evaluation
//! claim. A claim on a virtual polynomial is decomposed: a sum splits into
//! two sub-claims proven recursively by direct substitution, a product emits
//! a sumcheck constraint to be proven later. Each input claim yields one
//! proof artifact binding the claim to its decomposition, in input order.

use vstd::prelude::*;

use crate::error::Error;
use crate::multilinear::{eq_expand, eq_expand_spec, eval_multilinear, fold_scalars_multi, lemma_fold_multi_len};
use crate::oracle::{odepth, MultilinearOracleSet, OracleMeta, OracleVariant};
use crate::transcript::{lemma_mix_one, lemma_mix_seq_append, mix_seq_spec, scalar_bytes, ProverTranscript};
use crate::util::{pow2, MAX_VARS};
use crate::witness::MultilinearExtensionIndex;

verus! {

/// An assertion that the polynomial behind `id` evaluates to `eval` at
/// `eval_point`.
#[derive(Clone, Debug, PartialEq, Eq)]
pub struct EvalcheckMultilinearClaim {
    pub id: usize,
    pub eval_point: Vec<u16>,
    pub eval: u16,
}

/// A claim that the product of the multilinears behind `a` and `b`,
/// weighted by the equality indicator of `eq_point`, sums to `sum` over the
/// boolean hypercube.
#[derive(Clone, Debug, PartialEq, Eq)]
pub struct SumcheckConstraint {
    pub a: usize,
    pub b: usize,
    pub eq_point: Vec<u16>,
    pub sum: u16,
}

/// The proof artifact of one claim's reduction step.
#[derive(Debug, PartialEq, Eq)]
pub enum EvalcheckProof {
    /// The claim was terminal: it referenced a committed polynomial.
    Committed,
    /// The claim split by direct substitution into two sub-claims with the
    /// recorded evaluations.
    Sum {
        eval1: u16,
        eval2: u16,
        sub1: Box<EvalcheckProof>,
        sub2: Box<EvalcheckProof>,
    },
    /// The claim was handed to the sumcheck queue.
    Product,
}

/// Witness data is present for oracle `i` and covers its hypercube.
pub open spec fn witness_ok(os: Seq<OracleMeta>, w: MultilinearExtensionIndex, i: usize) -> bool {
    &&& i < os.len()
    &&& w.spec_get(i as int) is Some
    &&& w.spec_get(i as int).unwrap().len() == pow2(os[i as int].n_vars as nat)
}

/// The error, if any, that reducing one claim reports — in the exact order
/// the prover performs its checks.
pub open spec fn claim_err(
    os: Seq<OracleMeta>,
    w: MultilinearExtensionIndex,
    id: usize,
    point: Seq<u16>,
    eval: u16,
) -> Option<Error>
    decreases id,
{
    if id >= os.len() {
        Some(Error::MalformedClaim { oracle_id: id })
    } else if point.len() != os[id as int].n_vars {
        Some(Error::MalformedClaim { oracle_id: id })
    } else {
        match os[id as int].variant {
            OracleVariant::Committed => None,
            OracleVariant::Sum(a, b) => {
                if !(a < id && b < id) {
                    Some(Error::CompositionMismatch { oracle_id: id })
                } else if !witness_ok(os, w, a) {
                    Some(Error::CompositionMismatch { oracle_id: id })
                } else if !witness_ok(os, w, b) {
                    Some(Error::CompositionMismatch { oracle_id: id })
                } else {
                    let e1 = eval_multilinear(w.spec_get(a as int).unwrap(), point);
                    let e2 = eval_multilinear(w.spec_get(b as int).unwrap(), point);
                    if (e1 ^ e2) != eval {
                        Some(Error::CompositionMismatch { oracle_id: id })
                    } else if claim_err(os, w, a, point, e1) is Some {
                        claim_err(os, w, a, point, e1)
                    } else {
                        claim_err(os, w, b, point, e2)
                    }
                }
            },
            OracleVariant::Product(a, b) => {
                if !(a < id && b < id) {
                    Some(Error::CompositionMismatch { oracle_id: id })
                } else if !witness_ok(os, w, a) {
                    Some(Error::CompositionMismatch { oracle_id: id })
                } else if !witness_ok(os, w, b) {
                    Some(Error::CompositionMismatch { oracle_id: id })
                } else {
                    None
                }
            },
        }
    }
}

/// The proof artifact a successful reduction of one claim produces.
pub open spec fn proof_of(
    os: Seq<OracleMeta>,
    w: MultilinearExtensionIndex,
    id: usize,
    point: Seq<u16>,
) -> EvalcheckProof
    decreases id,
{
    if id < os.len() {
        match os[id as int].variant {
            OracleVariant::Committed => EvalcheckProof::Committed,
            OracleVariant::Sum(a, b) => {
                if a < id && b < id {
                    let e1 = eval_multilinear(w.spec_get(a as int).unwrap(), point);
                    let e2 = eval_multilinear(w.spec_get(b as int).unwrap(), point);
                    EvalcheckProof::Sum {
                        eval1: e1,
                        eval2: e2,
                        sub1: Box::new(proof_of(os, w, a, point)),
                        sub2: Box::new(proof_of(os, w, b, point)),
                    }
                } else {
                    EvalcheckProof::Committed
                }
            },
            OracleVariant::Product(_, _) => EvalcheckProof::Product,
        }
    } else {
        EvalcheckProof::Committed
    }
}

/// The terminal committed-evaluation claims a claim-and-artifact pair
/// re-derives, in production order. This replay needs only the registry, the
/// original claim, and the artifact — not the witness.
pub open spec fn replay_one(
    os: Seq<OracleMeta>,
    id: usize,
    point: Seq<u16>,
    eval: u16,
    p: EvalcheckProof,
) -> Seq<(usize, Seq<u16>, u16)>
    decreases p,
{
    match p {
        EvalcheckProof::Committed => seq![(id, point, eval)],
        EvalcheckProof::Sum { eval1, eval2, sub1, sub2 } => {
            if id < os.len() {
                match os[id as int].variant {
                    OracleVariant::Sum(a, b) => replay_one(os, a, point, eval1, *sub1)
                        + replay_one(os, b, point, eval2, *sub2),
                    _ => Seq::empty(),
                }
            } else {
                Seq::empty()
            }
        },
        EvalcheckProof::Product => Seq::empty(),
    }
}

/// The sumcheck constraints a successful reduction of one claim enqueues,
/// in production order.
pub open spec fn constraints_of(
    os: Seq<OracleMeta>,
    w: MultilinearExtensionIndex,
    id: usize,
    point: Seq<u16>,
    eval: u16,
) -> Seq<(usize, usize, Seq<u16>, u16)>
    decreases id,
{
    if id < os.len() {
        match os[id as int].variant {
            OracleVariant::Committed => Seq::empty(),
            OracleVariant::Sum(a, b) => {
                if a < id && b < id {
                    let e1 = eval_multilinear(w.spec_get(a as int).unwrap(), point);
                    let e2 = eval_multilinear(w.spec_get(b as int).unwrap(), point);
                    constraints_of(os, w, a, point, e1) + constraints_of(os, w, b, point, e2)
                } else {
                    Seq::empty()
                }
            },
            OracleVariant::Product(a, b) => seq![(a, b, point, eval)],
        }
    } else {
        Seq::empty()
    }
}

/// The view of one committed claim.
pub open spec fn claim_view(c: EvalcheckMultilinearClaim) -> (usize, Seq<u16>, u16) {
    (c.id, c.eval_point@, c.eval)
}

/// The views of a whole claim vector.
pub open spec fn claims_view(s: Seq<EvalcheckMultilinearClaim>) -> Seq<(usize, Seq<u16>, u16)> {
    Seq::new(s.len(), |i: int| claim_view(s[i]))
}

/// The views of a whole constraint vector.
pub open spec fn queue_view(s: Seq<SumcheckConstraint>) -> Seq<(usize, usize, Seq<u16>, u16)> {
    Seq::new(s.len(), |i: int| constraint_view(s[i]))
}

/// The view of one sumcheck constraint.
pub open spec fn constraint_view(c: SumcheckConstraint) -> (usize, usize, Seq<u16>, u16) {
    (c.a, c.b, c.eq_point@, c.sum)
}

/// The depth of the deeper oracle a constraint references.
pub open spec fn sc_depth(os: Seq<OracleMeta>, c: (usize, usize, Seq<u16>, u16)) -> nat {
    if odepth(os, c.0 as int) >= odepth(os, c.1 as int) {
        odepth(os, c.0 as int)
    } else {
        odepth(os, c.1 as int)
    }
}

/// The byte encoding of one proof artifact.
pub open spec fn proof_bytes(p: EvalcheckProof) -> Seq<u8>
    decreases p,
{
    match p {
        EvalcheckProof::Committed => seq![0u8],
        EvalcheckProof::Sum { eval1, eval2, sub1, sub2 } => seq![1u8] + scalar_bytes(eval1)
            + scalar_bytes(eval2) + proof_bytes(*sub1) + proof_bytes(*sub2),
        EvalcheckProof::Product => seq![2u8],
    }
}

/// The byte encoding of the first `j` artifacts of a batch.
pub open spec fn proofs_bytes(ps: Seq<EvalcheckProof>, j: int) -> Seq<u8>
    decreases j,
{
    if j <= 0 {
        Seq::empty()
    } else {
        proofs_bytes(ps, j - 1) + proof_bytes(ps[j - 1])
    }
}

/// Write one proof artifact to the transcript, in its canonical byte
/// encoding, mixing every byte into the challenge state.
#[verifier::rlimit(80)]
pub fn serialize_evalcheck_proof(transcript: &mut ProverTranscript, artifact: &EvalcheckProof)
    ensures
        final(transcript).bytes@ == old(transcript).bytes@ + proof_bytes(*artifact),
        final(transcript).state == mix_seq_spec(old(transcript).state, proof_bytes(*artifact)),
    decreases *artifact,
{
    match artifact {
        EvalcheckProof::Committed => {
            transcript.write_byte(0u8);
            proof {
                assert(old(transcript).bytes@.push(0u8) =~= old(transcript).bytes@ + seq![0u8]);
                lemma_mix_one(old(transcript).state, 0u8);
            }
        },
        EvalcheckProof::Product => {
            transcript.write_byte(2u8);
            proof {
                assert(old(transcript).bytes@.push(2u8) =~= old(transcript).bytes@ + seq![2u8]);
                lemma_mix_one(old(transcript).state, 2u8);
            }
        },
        EvalcheckProof::Sum { eval1, eval2, sub1, sub2 } => {
            let ghost s0 = old(transcript).state;
            let ghost b0 = old(transcript).bytes@;
            let ghost part1 = seq![1u8] + scalar_bytes(*eval1) + scalar_bytes(*eval2);
            transcript.write_byte(1u8);
            proof {
                lemma_mix_one(s0, 1u8);
                assert(transcript.state == mix_seq_spec(s0, seq![1u8]));
            }
            transcript.write_scalar(*eval1);
            proof {
                lemma_mix_seq_append(s0, seq![1u8], scalar_bytes(*eval1));
            }
            transcript.write_scalar(*eval2);
            proof {
                lemma_mix_seq_append(s0, seq![1u8] + scalar_bytes(*eval1), scalar_bytes(*eval2));
                assert(transcript.state == mix_seq_spec(s0, part1));
                assert(transcript.bytes@ =~= b0 + part1);
            }
            let ghost b1 = transcript.bytes@;
            serialize_evalcheck_proof(transcript, sub1);
            proof {
                lemma_mix_seq_append(s0, part1, proof_bytes(**sub1));
                assert(transcript.state == mix_seq_spec(s0, part1 + proof_bytes(**sub1)));
                assert(transcript.bytes@ =~= b0 + (part1 + proof_bytes(**sub1)));
            }
            let ghost b2 = transcript.bytes@;
            serialize_evalcheck_proof(transcript, sub2);
            proof {
                lemma_mix_seq_append(s0, part1 + proof_bytes(**sub1), proof_bytes(**sub2));
                let whole = part1 + proof_bytes(**sub1) + proof_bytes(**sub2);
                assert(proof_bytes(*artifact) == whole);
                assert(transcript.state == mix_seq_spec(s0, whole));
                assert(transcript.bytes@ =~= b0 + whole);
            }
        },
    }
}


/// Copy a scalar vector.
pub fn copy_scalars(v: &Vec<u16>) -> (r: Vec<u16>)
    ensures
        r@ == v@,
{
    let mut out: Vec<u16> = Vec::new();
    let mut i: usize = 0;
    while i < v.len()
        invariant
            i <= v@.len(),
            out@ =~= v@.subrange(0, i as int),
        decreases v@.len() - i,
    {
        out.push(v[i]);
        i = i + 1;
    }
    proof {
        assert(out@ =~= v@);
    }
    out
}

/// Whether two scalar vectors hold the same values.
pub fn scalars_equal(a: &Vec<u16>, b: &Vec<u16>) -> (r: bool)
    ensures
        r <==> a@ == b@,
{
    if a.len() != b.len() {
        proof {
            assert(a@.len() != b@.len());
        }
        return false;
    }
    let mut i: usize = 0;
    while i < a.len()
        invariant
            i <= a@.len(),
            a@.len() == b@.len(),
            forall|j: int| 0 <= j < i ==> a@[j] == b@[j],
        decreases a@.len() - i,
    {
        if a[i] != b[i] {
            return false;
        }
        i = i + 1;
    }
    proof {
        assert(a@ =~= b@);
    }
    true
}

/// Evaluate the multilinear extension of a full evaluation table at a point.
pub fn evaluate_witness(evals: &Vec<u16>, point: &Vec<u16>) -> (r: u16)
    requires
        evals@.len() == pow2(point@.len()),
    ensures
        r == eval_multilinear(evals@, point@),
{
    proof {
        lemma_fold_multi_len(evals@, point@, point@.len());
    }
    let folded = fold_scalars_multi(evals, point);
    folded[0]
}

/// Per-session cache of equality-indicator expansions, keyed by evaluation
/// point. Append-only; handed off by value to the caller at session end.
#[derive(Debug)]
pub struct MemoizedData {
    pub entries: Vec<(Vec<u16>, Vec<u16>)>,
}

impl MemoizedData {
    /// Every cached expansion is the expansion of its key.
    pub open spec fn wf(self) -> bool {
        forall|i: int|
            0 <= i < self.entries@.len() ==> {
                &&& (#[trigger] self.entries@[i]).0@.len() <= MAX_VARS
                &&& self.entries@[i].1@ == eq_expand_spec(self.entries@[i].0@)
            }
    }

    /// An empty cache.
    pub fn new() -> (r: Self)
        ensures
            r.wf(),
            r.entries@.len() == 0,
    {
        MemoizedData { entries: Vec::new() }
    }

    /// The equality-indicator expansion of `point`: served from the cache
    /// when present, computed and cached otherwise.
    pub fn eq_expansion(&mut self, point: &Vec<u16>) -> (r: Vec<u16>)
        requires
            old(self).wf(),
            point@.len() <= MAX_VARS,
        ensures
            final(self).wf(),
            r@ == eq_expand_spec(point@),
    {
        let mut i: usize = 0;
        while i < self.entries.len()
            invariant
                self.wf(),
                i <= self.entries@.len(),
            decreases self.entries@.len() - i,
        {
            let hit = {
                let entry = &self.entries[i];
                scalars_equal(&entry.0, point)
            };
            if hit {
                let entry = &self.entries[i];
                return copy_scalars(&entry.1);
            }
            i = i + 1;
        }
        let expansion = eq_expand(point);
        let key = copy_scalars(point);
        let keep = copy_scalars(&expansion);
        let ghost prev = self.entries@;
        self.entries.push((key, keep));
        proof {
            assert forall|k: int| 0 <= k < self.entries@.len() implies {
                &&& (#[trigger] self.entries@[k]).0@.len() <= MAX_VARS
                &&& self.entries@[k].1@ == eq_expand_spec(self.entries@[k].0@)
            } by {
                if k < prev.len() {
                    assert(self.entries@[k] == prev[k]);
                }
            }
        }
        expansion
    }
}

/// A terminal claim indeed references a committed oracle of matching arity.
pub open spec fn committed_ok(os: Seq<OracleMeta>, c: EvalcheckMultilinearClaim) -> bool {
    &&& c.id < os.len()
    &&& os[c.id as int].variant == OracleVariant::Committed
    &&& c.eval_point@.len() == os[c.id as int].n_vars
}

/// A constraint is consistent with registry and witness store: both handles
/// resolve, arities agree with the weighting point, and witness data covers
/// both hypercubes.
pub open spec fn constraint_ok(
    os: Seq<OracleMeta>,
    w: MultilinearExtensionIndex,
    c: (usize, usize, Seq<u16>, u16),
) -> bool {
    &&& c.0 < os.len()
    &&& c.1 < os.len()
    &&& os[c.0 as int].n_vars == c.2.len()
    &&& os[c.1 as int].n_vars == c.2.len()
    &&& c.2.len() <= MAX_VARS
    &&& witness_ok(os, w, c.0)
    &&& witness_ok(os, w, c.1)
}

/// First error over a claim batch, in input order.
pub open spec fn batch_err(
    os: Seq<OracleMeta>,
    w: MultilinearExtensionIndex,
    cs: Seq<EvalcheckMultilinearClaim>,
) -> Option<Error>
    decreases cs.len(),
{
    if cs.len() == 0 {
        None
    } else if claim_err(os, w, cs[0].id, cs[0].eval_point@, cs[0].eval) is Some {
        claim_err(os, w, cs[0].id, cs[0].eval_point@, cs[0].eval)
    } else {
        batch_err(os, w, cs.drop_first())
    }
}

/// The proof artifacts of a claim batch, in input order.
pub open spec fn batch_proofs(
    os: Seq<OracleMeta>,
    w: MultilinearExtensionIndex,
    cs: Seq<EvalcheckMultilinearClaim>,
) -> Seq<EvalcheckProof> {
    Seq::new(cs.len(), |k: int| proof_of(os, w, cs[k].id, cs[k].eval_point@))
}

/// The terminal claims a batch of claim-and-artifact pairs re-derives.
pub open spec fn batch_replay(
    os: Seq<OracleMeta>,
    cs: Seq<EvalcheckMultilinearClaim>,
    ps: Seq<EvalcheckProof>,
) -> Seq<(usize, Seq<u16>, u16)>
    decreases cs.len(),
{
    if cs.len() == 0 {
        Seq::empty()
    } else {
        replay_one(os, cs[0].id, cs[0].eval_point@, cs[0].eval, ps[0]) + batch_replay(
            os,
            cs.drop_first(),
            ps.drop_first(),
        )
    }
}

/// The sumcheck constraints a claim batch enqueues, in input order.
pub open spec fn batch_constraints(
    os: Seq<OracleMeta>,
    w: MultilinearExtensionIndex,
    cs: Seq<EvalcheckMultilinearClaim>,
) -> Seq<(usize, usize, Seq<u16>, u16)>
    decreases cs.len(),
{
    if cs.len() == 0 {
        Seq::empty()
    } else {
        constraints_of(os, w, cs[0].id, cs[0].eval_point@, cs[0].eval) + batch_constraints(
            os,
            w,
            cs.drop_first(),
        )
    }
}

/// Deepest oracle referenced by a claim batch.
pub open spec fn batch_depth(os: Seq<OracleMeta>, cs: Seq<EvalcheckMultilinearClaim>) -> nat
    decreases cs.len(),
{
    if cs.len() == 0 {
        0
    } else {
        let head = odepth(os, cs[0].id as int);
        let rest = batch_depth(os, cs.drop_first());
        if head >= rest {
            head
        } else {
            rest
        }
    }
}

/// The evalcheck prover's working state for one session: accumulated
/// terminal claims, the queue of not-yet-proven sumcheck constraints, and
/// the session cache.
#[derive(Debug)]
pub struct EvalcheckProver {
    pub committed_eval_claims: Vec<EvalcheckMultilinearClaim>,
    pub new_sumchecks: Vec<SumcheckConstraint>,
    pub memoized_data: MemoizedData,
}

impl EvalcheckProver {
    /// The state is consistent with registry and witness store.
    pub open spec fn inv(self, os: Seq<OracleMeta>, w: MultilinearExtensionIndex) -> bool {
        &&& self.memoized_data.wf()
        &&& forall|i: int|
            0 <= i < self.new_sumchecks@.len() ==> constraint_ok(
                os,
                w,
                constraint_view(#[trigger] self.new_sumchecks@[i]),
            )
        &&& forall|i: int|
            0 <= i < self.committed_eval_claims@.len() ==> committed_ok(
                os,
                #[trigger] self.committed_eval_claims@[i],
            )
    }

    /// A fresh prover with no claims, no queue, and an empty cache.
    pub fn new() -> (r: Self)
        ensures
            forall|os: Seq<OracleMeta>, w: MultilinearExtensionIndex| r.inv(os, w),
            r.committed_eval_claims@.len() == 0,
            r.new_sumchecks@.len() == 0,
            r.memoized_data.entries@.len() == 0,
    {
        EvalcheckProver {
            committed_eval_claims: Vec::new(),
            new_sumchecks: Vec::new(),
            memoized_data: MemoizedData::new(),
        }
    }

    /// Reduce one claim. On success the artifact, the appended terminal
    /// claims and the appended constraints are all pinned by the claim
    /// alone; on failure the reported error is the first one the checks
    /// reach.
    fn prove_claim(
        &mut self,
        os: &MultilinearOracleSet,
        w: &MultilinearExtensionIndex,
        id: usize,
        point: &Vec<u16>,
        eval: u16,
    ) -> (r: Result<EvalcheckProof, Error>)
        requires
            os.wf(),
            old(self).inv(os.oracles@, *w),
        ensures
            final(self).inv(os.oracles@, *w),
            final(self).memoized_data == old(self).memoized_data,
            r matches Err(e) ==> claim_err(os.oracles@, *w, id, point@, eval) == Some(e),
            r matches Ok(p) ==> {
                &&& claim_err(os.oracles@, *w, id, point@, eval) is None
                &&& p == proof_of(os.oracles@, *w, id, point@)
                &&& claims_view(final(self).committed_eval_claims@) == claims_view(old(self).committed_eval_claims@) + replay_one(os.oracles@, id, point@, eval, p)
                &&& queue_view(final(self).new_sumchecks@) == queue_view(old(self).new_sumchecks@) + constraints_of(os.oracles@, *w, id, point@, eval)
            },
        decreases id,
    {
        let ghost osv = os.oracles@;
        if id >= os.len() {
            return Err(Error::MalformedClaim { oracle_id: id });
        }
        let meta = os.get(id);
        if point.len() != meta.n_vars {
            return Err(Error::MalformedClaim { oracle_id: id });
        }
        match meta.variant {
            OracleVariant::Committed => {
                let ghost prev = self.committed_eval_claims@;
                self.committed_eval_claims.push(
                    EvalcheckMultilinearClaim { id, eval_point: copy_scalars(point), eval },
                );
                proof {
                    assert(claims_view(self.committed_eval_claims@) =~= claims_view(prev)
                        + replay_one(osv, id, point@, eval, EvalcheckProof::Committed));
                    assert forall|i: int|
                        0 <= i < self.committed_eval_claims@.len() implies committed_ok(
                        osv,
                        #[trigger] self.committed_eval_claims@[i],
                    ) by {
                        if i < prev.len() {
                            assert(self.committed_eval_claims@[i] == prev[i]);
                        }
                    }
                }
                Ok(EvalcheckProof::Committed)
            },
            OracleVariant::Sum(a, b) => {
                let expected = point.len();
                if !w.has(a) {
                    return Err(Error::CompositionMismatch { oracle_id: id });
                }
                if crate::util::pow2_exec(expected) != w.get(a).len() {
                    return Err(Error::CompositionMismatch { oracle_id: id });
                }
                if !w.has(b) {
                    return Err(Error::CompositionMismatch { oracle_id: id });
                }
                if crate::util::pow2_exec(expected) != w.get(b).len() {
                    return Err(Error::CompositionMismatch { oracle_id: id });
                }
                let e1 = evaluate_witness(w.get(a), point);
                let e2 = evaluate_witness(w.get(b), point);
                if (e1 ^ e2) != eval {
                    return Err(Error::CompositionMismatch { oracle_id: id });
                }
                let r1 = match self.prove_claim(os, w, a, point, e1) {
                    Ok(p) => p,
                    Err(e) => {
                        return Err(e);
                    },
                };
                let ghost mid_committed = self.committed_eval_claims@;
                let ghost mid_queue = self.new_sumchecks@;
                let r2 = match self.prove_claim(os, w, b, point, e2) {
                    Ok(p) => p,
                    Err(e) => {
                        return Err(e);
                    },
                };
                let out = EvalcheckProof::Sum {
                    eval1: e1,
                    eval2: e2,
                    sub1: Box::new(r1),
                    sub2: Box::new(r2),
                };
                proof {
                    assert(claims_view(self.committed_eval_claims@) =~= claims_view(old(
                        self,
                    ).committed_eval_claims@) + replay_one(osv, id, point@, eval, out));
                    assert(queue_view(self.new_sumchecks@) =~= queue_view(old(
                        self,
                    ).new_sumchecks@) + constraints_of(osv, *w, id, point@, eval));
                }
                Ok(out)
            },
            OracleVariant::Product(a, b) => {
                let expected = point.len();
                if !w.has(a) {
                    return Err(Error::CompositionMismatch { oracle_id: id });
                }
                if crate::util::pow2_exec(expected) != w.get(a).len() {
                    return Err(Error::CompositionMismatch { oracle_id: id });
                }
                if !w.has(b) {
                    return Err(Error::CompositionMismatch { oracle_id: id });
                }
                if crate::util::pow2_exec(expected) != w.get(b).len() {
                    return Err(Error::CompositionMismatch { oracle_id: id });
                }
                let ghost prevq = self.new_sumchecks@;
                self.new_sumchecks.push(
                    SumcheckConstraint { a, b, eq_point: copy_scalars(point), sum: eval },
                );
                proof {
                    assert(queue_view(self.new_sumchecks@) =~= queue_view(prevq) + seq![
                        (a, b, point@, eval),
                    ]);
                    assert forall|i: int| 0 <= i < self.new_sumchecks@.len() implies constraint_ok(
                        osv,
                        *w,
                        constraint_view(#[trigger] self.new_sumchecks@[i]),
                    ) by {
                        if i < prevq.len() {
                            assert(self.new_sumchecks@[i] == prevq[i]);
                        }
                    }
                }
                Ok(EvalcheckProof::Product)
            },
        }
    }

    /// Reduce a batch of claims, in input order. Success is owed exactly
    /// when every claim is consistent with registry and witness store; the
    /// artifacts, appended terminal claims and appended constraints are then
    /// pinned by the batch alone.
    pub fn prove(
        &mut self,
        os: &MultilinearOracleSet,
        w: &MultilinearExtensionIndex,
        claims: Vec<EvalcheckMultilinearClaim>,
    ) -> (r: Result<Vec<EvalcheckProof>, Error>)
        requires
            os.wf(),
            old(self).inv(os.oracles@, *w),
        ensures
            final(self).inv(os.oracles@, *w),
            final(self).memoized_data == old(self).memoized_data,
            r is Ok <==> batch_err(os.oracles@, *w, claims@) is None,
            r matches Err(e) ==> batch_err(os.oracles@, *w, claims@) == Some(e),
            r matches Ok(ps) ==> {
                &&& ps@ == batch_proofs(os.oracles@, *w, claims@)
                &&& claims_view(final(self).committed_eval_claims@) == claims_view(old(self).committed_eval_claims@) + batch_replay(os.oracles@, claims@, ps@)
                &&& queue_view(final(self).new_sumchecks@) == queue_view(old(self).new_sumchecks@) + batch_constraints(os.oracles@, *w, claims@)
            },
    {
        let ghost osv = os.oracles@;
        let mut artifacts: Vec<EvalcheckProof> = Vec::new();
        let mut k: usize = 0;
        proof {
            assert(claims@.subrange(0, 0) =~= Seq::<EvalcheckMultilinearClaim>::empty());
        }
        while k < claims.len()
            invariant
                os.wf(),
                self.inv(osv, *w),
                osv == os.oracles@,
                self.memoized_data == old(self).memoized_data,
                k <= claims@.len(),
                artifacts@.len() == k,
                batch_err(osv, *w, claims@.subrange(0, k as int)) is None,
                artifacts@ == batch_proofs(osv, *w, claims@.subrange(0, k as int)),
                claims_view(self.committed_eval_claims@) == claims_view(old(
                    self,
                ).committed_eval_claims@) + batch_replay(
                    osv,
                    claims@.subrange(0, k as int),
                    artifacts@,
                ),
                queue_view(self.new_sumchecks@) == queue_view(old(self).new_sumchecks@)
                    + batch_constraints(osv, *w, claims@.subrange(0, k as int)),
            decreases claims@.len() - k,
        {
            let claim = &claims[k];
            let ghost pre_committed = self.committed_eval_claims@;
            let ghost pre_queue = self.new_sumchecks@;
            let res = self.prove_claim(os, w, claim.id, &claim.eval_point, claim.eval);
            match res {
                Ok(p) => {
                    let ghost ps_new = artifacts@.push(proof_of(osv, *w, claim.id, claim.eval_point@));
                    proof {
                        assert(ps_new =~= batch_proofs(osv, *w, claims@.subrange(0, k as int)).push(
                            proof_of(osv, *w, claims@[k as int].id, claims@[k as int].eval_point@),
                        ));
                        lemma_batch_step(osv, *w, claims@, ps_new, k as int);
                        assert(ps_new.subrange(0, k as int) =~= artifacts@);
                        let ra = batch_replay(osv, claims@.subrange(0, k as int), artifacts@);
                        let rb = replay_one(
                            osv,
                            claims@[k as int].id,
                            claims@[k as int].eval_point@,
                            claims@[k as int].eval,
                            ps_new[k as int],
                        );
                        assert((claims_view(old(self).committed_eval_claims@) + ra) + rb
                            =~= claims_view(old(self).committed_eval_claims@) + (ra + rb));
                        let ca = batch_constraints(osv, *w, claims@.subrange(0, k as int));
                        let cb = constraints_of(
                            osv,
                            *w,
                            claims@[k as int].id,
                            claims@[k as int].eval_point@,
                            claims@[k as int].eval,
                        );
                        assert((queue_view(old(self).new_sumchecks@) + ca) + cb
                            =~= queue_view(old(self).new_sumchecks@) + (ca + cb));
                    }
                    artifacts.push(p);
                    k = k + 1;
                },
                Err(e) => {
                    proof {
                        lemma_batch_err_step(osv, *w, claims@, k as int);
                    }
                    return Err(e);
                },
            }
        }
        proof {
            assert(claims@.subrange(0, claims@.len() as int) =~= claims@);
        }
        Ok(artifacts)
    }

    /// Drain the constraints accumulated since the last drain; an empty
    /// result is the loop's termination signal.
    pub fn take_new_sumchecks_constraints(&mut self) -> (r: Vec<SumcheckConstraint>)
        ensures
            r@ == old(self).new_sumchecks@,
            final(self).new_sumchecks@.len() == 0,
            final(self).committed_eval_claims == old(self).committed_eval_claims,
            final(self).memoized_data == old(self).memoized_data,
    {
        let mut out: Vec<SumcheckConstraint> = Vec::new();
        core::mem::swap(&mut out, &mut self.new_sumchecks);
        out
    }

    /// The accumulated terminal committed-evaluation claims, for extraction
    /// at the end of a session.
    pub fn committed_eval_claims_mut(&mut self) -> (r: &mut Vec<EvalcheckMultilinearClaim>)
        ensures
            *r == old(self).committed_eval_claims,
            final(self).committed_eval_claims == *final(r),
            final(self).new_sumchecks == old(self).new_sumchecks,
            final(self).memoized_data == old(self).memoized_data,
    {
        &mut self.committed_eval_claims
    }
}

/// One successful step extends the batch mirrors by the head claim's
/// contributions.
proof fn lemma_batch_step(
    os: Seq<OracleMeta>,
    w: MultilinearExtensionIndex,
    cs: Seq<EvalcheckMultilinearClaim>,
    ps: Seq<EvalcheckProof>,
    k: int,
)
    requires
        0 <= k < cs.len(),
        ps.len() == k + 1,
        batch_err(os, w, cs.subrange(0, k)) is None,
        claim_err(os, w, cs[k].id, cs[k].eval_point@, cs[k].eval) is None,
        ps == batch_proofs(os, w, cs.subrange(0, k)).push(
            proof_of(os, w, cs[k].id, cs[k].eval_point@),
        ),
    ensures
        batch_err(os, w, cs.subrange(0, k + 1)) is None,
        ps == batch_proofs(os, w, cs.subrange(0, k + 1)),
        batch_replay(os, cs.subrange(0, k + 1), ps) == batch_replay(
            os,
            cs.subrange(0, k),
            ps.subrange(0, k),
        ) + replay_one(os, cs[k].id, cs[k].eval_point@, cs[k].eval, ps[k]),
        batch_constraints(os, w, cs.subrange(0, k + 1)) == batch_constraints(
            os,
            w,
            cs.subrange(0, k),
        ) + constraints_of(os, w, cs[k].id, cs[k].eval_point@, cs[k].eval),
{
    lemma_batch_snoc(os, w, cs.subrange(0, k + 1), ps);
    assert(cs.subrange(0, k + 1).drop_last() =~= cs.subrange(0, k));
    assert(ps.drop_last() =~= ps.subrange(0, k));
    assert(ps == batch_proofs(os, w, cs.subrange(0, k + 1))) by {
        assert(ps =~= batch_proofs(os, w, cs.subrange(0, k + 1)));
    }
}

/// Batch mirrors split at the last element.
proof fn lemma_batch_snoc(
    os: Seq<OracleMeta>,
    w: MultilinearExtensionIndex,
    cs: Seq<EvalcheckMultilinearClaim>,
    ps: Seq<EvalcheckProof>,
)
    requires
        cs.len() >= 1,
        ps.len() == cs.len(),
    ensures
        batch_err(os, w, cs.drop_last()) is None && claim_err(
            os,
            w,
            cs.last().id,
            cs.last().eval_point@,
            cs.last().eval,
        ) is None ==> batch_err(os, w, cs) is None,
        batch_replay(os, cs, ps) == batch_replay(os, cs.drop_last(), ps.drop_last()) + replay_one(
            os,
            cs.last().id,
            cs.last().eval_point@,
            cs.last().eval,
            ps.last(),
        ),
        batch_constraints(os, w, cs) == batch_constraints(os, w, cs.drop_last()) + constraints_of(
            os,
            w,
            cs.last().id,
            cs.last().eval_point@,
            cs.last().eval,
        ),
    decreases cs.len(),
{
    if cs.len() == 1 {
        assert(cs.drop_last() =~= Seq::<EvalcheckMultilinearClaim>::empty());
        assert(cs.drop_first().len() == 0);
        assert(batch_replay(os, cs.drop_first(), ps.drop_first()) == Seq::<(
            usize,
            Seq<u16>,
            u16,
        )>::empty());
        assert(batch_constraints(os, w, cs.drop_first()) == Seq::<(
            usize,
            usize,
            Seq<u16>,
            u16,
        )>::empty());
        assert(batch_replay(os, cs.drop_last(), ps.drop_last()) == Seq::<(
            usize,
            Seq<u16>,
            u16,
        )>::empty());
        assert(batch_constraints(os, w, cs.drop_last()) == Seq::<(
            usize,
            usize,
            Seq<u16>,
            u16,
        )>::empty());
        assert(cs.last() == cs[0] && ps.last() == ps[0]);
        if claim_err(os, w, cs.last().id, cs.last().eval_point@, cs.last().eval) is None {
            assert(batch_err(os, w, cs) is None);
        }
        assert(batch_replay(os, cs, ps) =~= batch_replay(os, cs.drop_last(), ps.drop_last())
            + replay_one(os, cs.last().id, cs.last().eval_point@, cs.last().eval, ps.last()));
        assert(batch_constraints(os, w, cs) =~= batch_constraints(os, w, cs.drop_last())
            + constraints_of(os, w, cs.last().id, cs.last().eval_point@, cs.last().eval));
    } else {
        lemma_batch_snoc(os, w, cs.drop_first(), ps.drop_first());
        assert(cs.drop_first().drop_last() =~= cs.drop_last().drop_first());
        assert(ps.drop_first().drop_last() =~= ps.drop_last().drop_first());
        assert(cs.drop_first().last() == cs.last());
        assert(ps.drop_first().last() == ps.last());
        assert(cs.drop_last()[0] == cs[0]);
        assert(ps.drop_last()[0] == ps[0]);
        if batch_err(os, w, cs.drop_last()) is None && claim_err(
            os,
            w,
            cs.last().id,
            cs.last().eval_point@,
            cs.last().eval,
        ) is None {
            assert(claim_err(os, w, cs[0].id, cs[0].eval_point@, cs[0].eval) is None);
            assert(batch_err(os, w, cs.drop_last().drop_first()) is None);
            assert(batch_err(os, w, cs.drop_first().drop_last()) is None);
            assert(batch_err(os, w, cs.drop_first()) is None);
            assert(batch_err(os, w, cs) is None);
        }
        assert(batch_replay(os, cs, ps) =~= batch_replay(os, cs.drop_last(), ps.drop_last())
            + replay_one(os, cs.last().id, cs.last().eval_point@, cs.last().eval, ps.last()));
        assert(batch_constraints(os, w, cs) =~= batch_constraints(os, w, cs.drop_last())
            + constraints_of(os, w, cs.last().id, cs.last().eval_point@, cs.last().eval));
    }
}

/// A failing step surfaces its error as the batch's first error.
proof fn lemma_batch_err_step(
    os: Seq<OracleMeta>,
    w: MultilinearExtensionIndex,
    cs: Seq<EvalcheckMultilinearClaim>,
    k: int,
)
    requires
        0 <= k < cs.len(),
        batch_err(os, w, cs.subrange(0, k)) is None,
        claim_err(os, w, cs[k].id, cs[k].eval_point@, cs[k].eval) is Some,
    ensures
        batch_err(os, w, cs) == claim_err(os, w, cs[k].id, cs[k].eval_point@, cs[k].eval),
    decreases k,
{
    if k == 0 {
    } else {
        assert(cs.subrange(0, k)[0] == cs[0]);
        assert(cs.subrange(0, k).drop_first() =~= cs.drop_first().subrange(0, k - 1));
        assert(cs.drop_first()[k - 1] == cs[k]);
        lemma_batch_err_step(os, w, cs.drop_first(), k - 1);
    }
}


/// Every constraint a claim emits references strictly shallower oracles
/// than the claim's own: reduction descends the composition graph.
pub proof fn lemma_constraints_depth(
    os: MultilinearOracleSet,
    w: MultilinearExtensionIndex,
    id: usize,
    point: Seq<u16>,
    eval: u16,
)
    requires
        os.wf(),
    ensures
        forall|k: int|
            0 <= k < constraints_of(os.oracles@, w, id, point, eval).len() ==> sc_depth(
                os.oracles@,
                #[trigger] constraints_of(os.oracles@, w, id, point, eval)[k],
            ) < odepth(os.oracles@, id as int),
    decreases id,
{
    let osv = os.oracles@;
    if id < osv.len() {
        match osv[id as int].variant {
            OracleVariant::Committed => {},
            OracleVariant::Sum(a, b) => {
                assert(a < id && b < id);
                let e1 = eval_multilinear(w.spec_get(a as int).unwrap(), point);
                let e2 = eval_multilinear(w.spec_get(b as int).unwrap(), point);
                lemma_constraints_depth(os, w, a, point, e1);
                lemma_constraints_depth(os, w, b, point, e2);
                let ca = constraints_of(osv, w, a, point, e1);
                let cb = constraints_of(osv, w, b, point, e2);
                assert forall|k: int|
                    0 <= k < constraints_of(osv, w, id, point, eval).len() implies sc_depth(
                    osv,
                    #[trigger] constraints_of(osv, w, id, point, eval)[k],
                ) < odepth(osv, id as int) by {
                    if k < ca.len() {
                        assert(constraints_of(osv, w, id, point, eval)[k] == ca[k]);
                        assert(sc_depth(osv, ca[k]) < odepth(osv, a as int));
                    } else {
                        assert(constraints_of(osv, w, id, point, eval)[k] == cb[k - ca.len()]);
                        assert(sc_depth(osv, cb[k - ca.len()]) < odepth(osv, b as int));
                    }
                }
            },
            OracleVariant::Product(a, b) => {
                assert(a < id && b < id);
                assert(odepth(osv, id as int) > odepth(osv, a as int));
                assert(odepth(osv, id as int) > odepth(osv, b as int));
            },
        }
    }
}

/// The deepest oracle of a batch bounds each member.
pub proof fn lemma_batch_depth_ge(os: Seq<OracleMeta>, cs: Seq<EvalcheckMultilinearClaim>, j: int)
    requires
        0 <= j < cs.len(),
    ensures
        odepth(os, cs[j].id as int) <= batch_depth(os, cs),
    decreases cs.len(),
{
    if j > 0 {
        lemma_batch_depth_ge(os, cs.drop_first(), j - 1);
        assert(cs.drop_first()[j - 1] == cs[j]);
    }
}

/// A bound on every member bounds the batch's depth.
pub proof fn lemma_batch_depth_le(os: Seq<OracleMeta>, cs: Seq<EvalcheckMultilinearClaim>, d: nat)
    requires
        forall|j: int| 0 <= j < cs.len() ==> odepth(os, (#[trigger] cs[j]).id as int) <= d,
    ensures
        batch_depth(os, cs) <= d,
    decreases cs.len(),
{
    if cs.len() > 0 {
        assert forall|j: int|
            0 <= j < cs.drop_first().len() implies odepth(
            os,
            (#[trigger] cs.drop_first()[j]).id as int,
        ) <= d by {
            assert(cs.drop_first()[j] == cs[j + 1]);
        }
        lemma_batch_depth_le(os, cs.drop_first(), d);
    }
}

/// Every constraint a whole batch enqueues is strictly shallower than the
/// batch's deepest claim.
pub proof fn lemma_batch_constraints_depth(
    os: MultilinearOracleSet,
    w: MultilinearExtensionIndex,
    cs: Seq<EvalcheckMultilinearClaim>,
)
    requires
        os.wf(),
    ensures
        forall|k: int|
            0 <= k < batch_constraints(os.oracles@, w, cs).len() ==> sc_depth(
                os.oracles@,
                #[trigger] batch_constraints(os.oracles@, w, cs)[k],
            ) < batch_depth(os.oracles@, cs),
    decreases cs.len(),
{
    let osv = os.oracles@;
    if cs.len() > 0 {
        lemma_constraints_depth(os, w, cs[0].id, cs[0].eval_point@, cs[0].eval);
        lemma_batch_constraints_depth(os, w, cs.drop_first());
        let ha = constraints_of(osv, w, cs[0].id, cs[0].eval_point@, cs[0].eval);
        let tb = batch_constraints(osv, w, cs.drop_first());
        assert forall|k: int|
            0 <= k < batch_constraints(osv, w, cs).len() implies sc_depth(
            osv,
            #[trigger] batch_constraints(osv, w, cs)[k],
        ) < batch_depth(osv, cs) by {
            lemma_batch_depth_ge(osv, cs, 0);
            if k < ha.len() {
                assert(batch_constraints(osv, w, cs)[k] == ha[k]);
            } else {
                assert(batch_constraints(osv, w, cs)[k] == tb[k - ha.len()]);
                assert(sc_depth(osv, tb[k - ha.len()]) < batch_depth(osv, cs.drop_first()));
                assert(batch_depth(osv, cs.drop_first()) <= batch_depth(osv, cs));
            }
        }
    }
}


/// Re-derive, from one claim and its artifact, the terminal claims the
/// reduction produced, appending them in production order.
fn replay_claim(
    os: &MultilinearOracleSet,
    id: usize,
    point: &Vec<u16>,
    eval: u16,
    artifact: &EvalcheckProof,
    out: &mut Vec<EvalcheckMultilinearClaim>,
)
    ensures
        claims_view(final(out)@) == claims_view(old(out)@) + replay_one(
            os.oracles@,
            id,
            point@,
            eval,
            *artifact,
        ),
    decreases *artifact,
{
    let ghost osv = os.oracles@;
    match artifact {
        EvalcheckProof::Committed => {
            let ghost prev = out@;
            out.push(EvalcheckMultilinearClaim { id, eval_point: copy_scalars(point), eval });
            proof {
                assert(claims_view(out@) =~= claims_view(prev) + replay_one(
                    osv,
                    id,
                    point@,
                    eval,
                    *artifact,
                ));
            }
        },
        EvalcheckProof::Product => {
            proof {
                assert(claims_view(out@) =~= claims_view(out@) + Seq::<(
                    usize,
                    Seq<u16>,
                    u16,
                )>::empty());
            }
        },
        EvalcheckProof::Sum { eval1, eval2, sub1, sub2 } => {
            let mut handled = false;
            if id < os.len() {
                let meta = os.get(id);
                match meta.variant {
                    OracleVariant::Sum(a, b) => {
                        replay_claim(os, a, point, *eval1, sub1, out);
                        replay_claim(os, b, point, *eval2, sub2, out);
                        handled = true;
                        proof {
                            assert(claims_view(out@) =~= claims_view(old(out)@) + replay_one(
                                osv,
                                id,
                                point@,
                                eval,
                                *artifact,
                            ));
                        }
                    },
                    _ => {},
                }
            }
            if !handled {
                proof {
                    assert(claims_view(out@) =~= claims_view(out@) + Seq::<(
                        usize,
                        Seq<u16>,
                        u16,
                    )>::empty());
                }
            }
        },
    }
}

/// Independently re-derive the terminal committed-evaluation claims from a
/// claim batch and its proof artifacts — the registry suffices, no witness
/// data is read.
pub fn replay_committed_claims(
    os: &MultilinearOracleSet,
    claims: &Vec<EvalcheckMultilinearClaim>,
    artifacts: &Vec<EvalcheckProof>,
) -> (r: Vec<EvalcheckMultilinearClaim>)
    requires
        artifacts@.len() == claims@.len(),
    ensures
        claims_view(r@) == batch_replay(os.oracles@, claims@, artifacts@),
{
    let ghost osv = os.oracles@;
    let mut out: Vec<EvalcheckMultilinearClaim> = Vec::new();
    let mut k: usize = 0;
    proof {
        assert(claims@.subrange(0, 0) =~= Seq::<EvalcheckMultilinearClaim>::empty());
        assert(claims_view(out@) =~= batch_replay(
            osv,
            claims@.subrange(0, 0),
            artifacts@.subrange(0, 0),
        ));
    }
    while k < claims.len()
        invariant
            k <= claims@.len(),
            artifacts@.len() == claims@.len(),
            osv == os.oracles@,
            claims_view(out@) == batch_replay(
                osv,
                claims@.subrange(0, k as int),
                artifacts@.subrange(0, k as int),
            ),
        decreases claims@.len() - k,
    {
        let claim = &claims[k];
        replay_claim(os, claim.id, &claim.eval_point, claim.eval, &artifacts[k], &mut out);
        proof {
            let cs1 = claims@.subrange(0, k + 1);
            let ps1 = artifacts@.subrange(0, k + 1);
            lemma_batch_snoc(osv, arbitrary(), cs1, ps1);
            assert(cs1.drop_last() =~= claims@.subrange(0, k as int));
            assert(ps1.drop_last() =~= artifacts@.subrange(0, k as int));
            assert(cs1.last() == claims@[k as int] && ps1.last() == artifacts@[k as int]);
        }
        k = k + 1;
    }
    proof {
        assert(claims@.subrange(0, claims@.len() as int) =~= claims@);
        assert(artifacts@.subrange(0, artifacts@.len() as int) =~= artifacts@);
    }
    out
}

/// Parse one proof artifact from its canonical byte encoding. Whatever
/// parses re-serializes to exactly the consumed bytes.
pub fn deserialize_evalcheck_proof(bytes: &Vec<u8>, pos: usize) -> (r: Option<
    (EvalcheckProof, usize),
>)
    ensures
        r matches Some(p) ==> {
            &&& pos < p.1 <= bytes@.len()
            &&& proof_bytes(p.0) == bytes@.subrange(pos as int, p.1 as int)
        },
    decreases bytes@.len() - pos,
{
    if pos >= bytes.len() {
        return None;
    }
    let tag = bytes[pos];
    if tag == 0 {
        proof {
            assert(seq![0u8] =~= bytes@.subrange(pos as int, pos + 1));
        }
        Some((EvalcheckProof::Committed, pos + 1))
    } else if tag == 2 {
        proof {
            assert(seq![2u8] =~= bytes@.subrange(pos as int, pos + 1));
        }
        Some((EvalcheckProof::Product, pos + 1))
    } else if tag == 1 {
        if bytes.len() - pos < 5 {
            return None;
        }
        let lo1 = bytes[pos + 1];
        let hi1 = bytes[pos + 2];
        let lo2 = bytes[pos + 3];
        let hi2 = bytes[pos + 4];
        let e1: u16 = lo1 as u16 | ((hi1 as u16) << 8);
        let e2: u16 = lo2 as u16 | ((hi2 as u16) << 8);
        proof {
            assert((lo1 as u16 | ((hi1 as u16) << 8)) & 0xff == lo1 as u16) by (bit_vector);
            assert((lo1 as u16 | ((hi1 as u16) << 8)) >> 8 == hi1 as u16) by (bit_vector);
            assert((lo2 as u16 | ((hi2 as u16) << 8)) & 0xff == lo2 as u16) by (bit_vector);
            assert((lo2 as u16 | ((hi2 as u16) << 8)) >> 8 == hi2 as u16) by (bit_vector);
        }
        let first = match deserialize_evalcheck_proof(bytes, pos + 5) {
            Some(x) => x,
            None => {
                return None;
            },
        };
        let second = match deserialize_evalcheck_proof(bytes, first.1) {
            Some(x) => x,
            None => {
                return None;
            },
        };
        let (p1, q1) = first;
        let (p2, q2) = second;
        let result = EvalcheckProof::Sum {
            eval1: e1,
            eval2: e2,
            sub1: Box::new(p1),
            sub2: Box::new(p2),
        };
        proof {
            assert(proof_bytes(result) =~= bytes@.subrange(pos as int, q2 as int));
        }
        Some((result, q2))
    } else {
        None
    }
}


/// First error over a claim batch given by its views.
pub open spec fn batch_err_v(
    os: Seq<OracleMeta>,
    w: MultilinearExtensionIndex,
    cs: Seq<(usize, Seq<u16>, u16)>,
) -> Option<Error>
    decreases cs.len(),
{
    if cs.len() == 0 {
        None
    } else if claim_err(os, w, cs[0].0, cs[0].1, cs[0].2) is Some {
        claim_err(os, w, cs[0].0, cs[0].1, cs[0].2)
    } else {
        batch_err_v(os, w, cs.drop_first())
    }
}

/// The proof artifacts of a claim batch given by its views.
pub open spec fn batch_proofs_v(
    os: Seq<OracleMeta>,
    w: MultilinearExtensionIndex,
    cs: Seq<(usize, Seq<u16>, u16)>,
) -> Seq<EvalcheckProof> {
    Seq::new(cs.len(), |k: int| proof_of(os, w, cs[k].0, cs[k].1))
}

/// The terminal claims a batch re-derives, given by its views.
pub open spec fn batch_replay_v(
    os: Seq<OracleMeta>,
    cs: Seq<(usize, Seq<u16>, u16)>,
    ps: Seq<EvalcheckProof>,
) -> Seq<(usize, Seq<u16>, u16)>
    decreases cs.len(),
{
    if cs.len() == 0 {
        Seq::empty()
    } else {
        replay_one(os, cs[0].0, cs[0].1, cs[0].2, ps[0]) + batch_replay_v(
            os,
            cs.drop_first(),
            ps.drop_first(),
        )
    }
}

/// The constraints a claim batch enqueues, given by its views.
pub open spec fn batch_constraints_v(
    os: Seq<OracleMeta>,
    w: MultilinearExtensionIndex,
    cs: Seq<(usize, Seq<u16>, u16)>,
) -> Seq<(usize, usize, Seq<u16>, u16)>
    decreases cs.len(),
{
    if cs.len() == 0 {
        Seq::empty()
    } else {
        constraints_of(os, w, cs[0].0, cs[0].1, cs[0].2) + batch_constraints_v(
            os,
            w,
            cs.drop_first(),
        )
    }
}

/// The batch mirrors read a claim batch only through its views.
pub proof fn lemma_batch_views(
    os: Seq<OracleMeta>,
    w: MultilinearExtensionIndex,
    cs: Seq<EvalcheckMultilinearClaim>,
    ps: Seq<EvalcheckProof>,
)
    ensures
        batch_err(os, w, cs) == batch_err_v(os, w, claims_view(cs)),
        batch_proofs(os, w, cs) == batch_proofs_v(os, w, claims_view(cs)),
        batch_replay(os, cs, ps) == batch_replay_v(os, claims_view(cs), ps),
        batch_constraints(os, w, cs) == batch_constraints_v(os, w, claims_view(cs)),
    decreases cs.len(),
{
    let cv = claims_view(cs);
    if cs.len() == 0 {
        assert(batch_proofs(os, w, cs) =~= batch_proofs_v(os, w, cv));
    } else {
        lemma_batch_views(os, w, cs.drop_first(), ps.drop_first());
        assert(claims_view(cs.drop_first()) =~= cv.drop_first());
        assert(cv[0] == claim_view(cs[0]));
        assert(batch_proofs(os, w, cs) =~= batch_proofs_v(os, w, cv));
    }
}

/// A claim reduction reports only claim-shape or composition errors.
pub proof fn lemma_claim_err_kind(
    os: Seq<OracleMeta>,
    w: MultilinearExtensionIndex,
    id: usize,
    point: Seq<u16>,
    eval: u16,
)
    ensures
        claim_err(os, w, id, point, eval) matches Some(e) ==> (e is MalformedClaim
            || e is CompositionMismatch),
    decreases id,
{
    if id < os.len() && point.len() == os[id as int].n_vars {
        match os[id as int].variant {
            OracleVariant::Committed => {},
            OracleVariant::Sum(a, b) => {
                if a < id && b < id && witness_ok(os, w, a) && witness_ok(os, w, b) {
                    let e1 = eval_multilinear(w.spec_get(a as int).unwrap(), point);
                    let e2 = eval_multilinear(w.spec_get(b as int).unwrap(), point);
                    lemma_claim_err_kind(os, w, a, point, e1);
                    lemma_claim_err_kind(os, w, b, point, e2);
                }
            },
            OracleVariant::Product(_, _) => {},
        }
    }
}

/// A batch reduction reports only claim-shape or composition errors.
pub proof fn lemma_batch_err_kind(
    os: Seq<OracleMeta>,
    w: MultilinearExtensionIndex,
    cs: Seq<EvalcheckMultilinearClaim>,
)
    ensures
        batch_err(os, w, cs) matches Some(e) ==> (e is MalformedClaim || e is CompositionMismatch),
    decreases cs.len(),
{
    if cs.len() > 0 {
        lemma_claim_err_kind(os, w, cs[0].id, cs[0].eval_point@, cs[0].eval);
        lemma_batch_err_kind(os, w, cs.drop_first());
    }
}

} // verus!
