use greedy_evalcheck::error::Error;
use greedy_evalcheck::evalcheck::{
    deserialize_evalcheck_proof, evaluate_witness, replay_committed_claims,
    serialize_evalcheck_proof, EvalcheckMultilinearClaim, EvalcheckProof, EvalcheckProver,
};
use greedy_evalcheck::field::fe_mul;
use greedy_evalcheck::multilinear::eq_expand;
use greedy_evalcheck::oracle::{MultilinearOracleSet, OracleVariant};
use greedy_evalcheck::prove;
use greedy_evalcheck::transcript::ProverTranscript;
use greedy_evalcheck::witness::MultilinearExtensionIndex;

fn product_setup() -> (MultilinearOracleSet, MultilinearExtensionIndex, Vec<u16>, u16) {
    // Two committed 2-variable polynomials and their virtual pointwise
    // product.
    let mut oracles = MultilinearOracleSet::new(1);
    let a = oracles.add_committed(2);
    let b = oracles.add_committed(2);
    oracles.add_virtual(OracleVariant::Product(a, b));

    let mut witness = MultilinearExtensionIndex::new();
    witness.set(a, vec![1, 2, 3, 4]);
    witness.set(b, vec![5, 6, 7, 8]);

    // The product's multilinear extension at `point` is the eq-weighted sum
    // of the pointwise products over the hypercube.
    let point = vec![3u16, 7u16];
    let eq = eq_expand(&point);
    let av = vec![1u16, 2, 3, 4];
    let bv = vec![5u16, 6, 7, 8];
    let mut target = 0u16;
    for i in 0..4 {
        target ^= fe_mul(fe_mul(eq[i], av[i]), bv[i]);
    }
    (oracles, witness, point, target)
}

#[test]
fn product_claim_runs_one_sumcheck_to_done() {
    let (oracles, witness, point, target) = product_setup();
    let claims = vec![EvalcheckMultilinearClaim { id: 2, eval_point: point, eval: target }];
    let mut transcript = ProverTranscript::new(42);
    let out = prove(&oracles, &witness, claims, &(|_x: usize| 1usize), &mut transcript)
        .expect("the product claim reduces");

    // One sumcheck round-trip leaves exactly two terminal claims, one for
    // each committed constituent, at the sumcheck's final random point.
    assert_eq!(out.eval_claims.len(), 2);
    assert_eq!(out.eval_claims[0].id, 0);
    assert_eq!(out.eval_claims[1].id, 1);
    assert_eq!(out.eval_claims[0].eval_point, out.eval_claims[1].eval_point);
    assert_eq!(out.eval_claims[0].eval_point.len(), 2);
    for claim in &out.eval_claims {
        let expected = evaluate_witness(witness.get(claim.id), &claim.eval_point);
        assert_eq!(claim.eval, expected);
    }
    // The session cached the weighting point's expansion.
    assert_eq!(out.memoized_data.entries.len(), 1);
    assert!(!transcript.bytes.is_empty());
}

#[test]
fn absent_oracle_reference_is_malformed() {
    let (oracles, witness, point, target) = product_setup();
    let claims = vec![EvalcheckMultilinearClaim { id: 9, eval_point: point, eval: target }];
    let mut transcript = ProverTranscript::new(42);
    let r = prove(&oracles, &witness, claims, &(|_x: usize| 1usize), &mut transcript);
    assert_eq!(r.err(), Some(Error::MalformedClaim { oracle_id: 9 }));
    // No transcript bytes are written for a rejected claim set.
    assert!(transcript.bytes.is_empty());
}

#[test]
fn arity_mismatch_is_malformed() {
    let (oracles, witness, _point, target) = product_setup();
    let claims = vec![EvalcheckMultilinearClaim { id: 2, eval_point: vec![3, 7, 1], eval: target }];
    let mut transcript = ProverTranscript::new(42);
    let r = prove(&oracles, &witness, claims, &(|_x: usize| 1usize), &mut transcript);
    assert_eq!(r.err(), Some(Error::MalformedClaim { oracle_id: 2 }));
    assert!(transcript.bytes.is_empty());
}

#[test]
fn inconsistent_sum_claim_is_composition_mismatch() {
    let mut oracles = MultilinearOracleSet::new(1);
    let a = oracles.add_committed(1);
    let b = oracles.add_committed(1);
    let s = oracles.add_virtual(OracleVariant::Sum(a, b));
    let mut witness = MultilinearExtensionIndex::new();
    witness.set(a, vec![1, 2]);
    witness.set(b, vec![4, 8]);
    // 1 ^ 4 = 5 would be right at the point (0); claim 6 instead.
    let claims = vec![EvalcheckMultilinearClaim { id: s, eval_point: vec![0], eval: 6 }];
    let mut transcript = ProverTranscript::new(0);
    let r = prove(&oracles, &witness, claims, &(|_x: usize| 1usize), &mut transcript);
    assert_eq!(r.err(), Some(Error::CompositionMismatch { oracle_id: s }));
    assert!(transcript.bytes.is_empty());
}

#[test]
fn sum_claim_splits_by_direct_substitution() {
    let mut oracles = MultilinearOracleSet::new(1);
    let a = oracles.add_committed(1);
    let b = oracles.add_committed(1);
    let s = oracles.add_virtual(OracleVariant::Sum(a, b));
    let mut witness = MultilinearExtensionIndex::new();
    witness.set(a, vec![1, 2]);
    witness.set(b, vec![4, 8]);
    let claims = vec![EvalcheckMultilinearClaim { id: s, eval_point: vec![0], eval: 5 }];
    let mut transcript = ProverTranscript::new(0);
    let out = prove(&oracles, &witness, claims, &(|_x: usize| 1usize), &mut transcript)
        .expect("a consistent sum claim reduces");
    assert_eq!(out.eval_claims.len(), 2);
    assert_eq!(out.eval_claims[0].id, a);
    assert_eq!(out.eval_claims[0].eval, 1);
    assert_eq!(out.eval_claims[1].id, b);
    assert_eq!(out.eval_claims[1].eval, 4);
}

#[test]
fn two_runs_give_byte_identical_transcripts() {
    let (oracles, witness, point, target) = product_setup();
    let claim = EvalcheckMultilinearClaim { id: 2, eval_point: point, eval: target };

    let mut t1 = ProverTranscript::new(7);
    let out1 = prove(&oracles, &witness, vec![claim.clone()], &(|_x: usize| 1usize), &mut t1)
        .expect("first run");
    let mut t2 = ProverTranscript::new(7);
    let out2 = prove(&oracles, &witness, vec![claim], &(|_x: usize| 1usize), &mut t2)
        .expect("second run");

    assert_eq!(t1.bytes, t2.bytes);
    assert_eq!(t1.state, t2.state);
    assert_eq!(out1.eval_claims, out2.eval_claims);
}

#[test]
fn artifacts_replay_to_the_same_terminal_claims() {
    // A sum of a committed polynomial and a nested sum exercises a
    // multi-level decomposition.
    let mut oracles = MultilinearOracleSet::new(2);
    let a = oracles.add_committed(1);
    let b = oracles.add_committed(1);
    let inner = oracles.add_virtual(OracleVariant::Sum(a, b));
    let outer = oracles.add_virtual(OracleVariant::Sum(inner, a));
    let mut witness = MultilinearExtensionIndex::new();
    witness.set(a, vec![1, 2]);
    witness.set(b, vec![4, 8]);
    witness.set(inner, vec![5, 10]);
    witness.set(outer, vec![4, 8]);
    // At point (0): inner = 1 ^ 4 = 5, outer = 5 ^ 1 = 4.
    let claims =
        vec![EvalcheckMultilinearClaim { id: outer, eval_point: vec![0], eval: 4 }];

    let mut prover = EvalcheckProver::new();
    let artifacts = prover.prove(&oracles, &witness, claims.clone()).expect("claims reduce");
    let produced = prover.committed_eval_claims_mut().clone();
    assert_eq!(produced.len(), 3);

    // Serialize the artifacts, then independently re-derive the terminal
    // claims from the bytes alone.
    let mut transcript = ProverTranscript::new(0);
    for artifact in &artifacts {
        serialize_evalcheck_proof(&mut transcript, artifact);
    }
    let mut parsed: Vec<EvalcheckProof> = Vec::new();
    let mut pos = 0usize;
    while pos < transcript.bytes.len() {
        let (artifact, next) =
            deserialize_evalcheck_proof(&transcript.bytes, pos).expect("bytes parse");
        parsed.push(artifact);
        pos = next;
    }
    assert_eq!(parsed, artifacts);
    let replayed = replay_committed_claims(&oracles, &claims, &parsed);
    assert_eq!(replayed, produced);
}

#[test]
fn depth_one_registry_reaches_done_in_one_iteration() {
    // With max_depth 1 the loop must finish after a single sumcheck batch;
    // reaching Ok shows the depth guard never fired.
    let (oracles, witness, point, target) = product_setup();
    assert_eq!(oracles.max_depth, 1);
    let claims = vec![EvalcheckMultilinearClaim { id: 2, eval_point: point, eval: target }];
    let mut transcript = ProverTranscript::new(1);
    assert!(prove(&oracles, &witness, claims, &(|_x: usize| 1usize), &mut transcript).is_ok());
}

#[test]
fn mixed_round_structure_fails_the_batch() {
    // Two products of different arity cannot share one sumcheck batch.
    let mut oracles = MultilinearOracleSet::new(1);
    let a = oracles.add_committed(1);
    let b = oracles.add_committed(1);
    let c = oracles.add_committed(2);
    let d = oracles.add_committed(2);
    let p1 = oracles.add_virtual(OracleVariant::Product(a, b));
    let p2 = oracles.add_virtual(OracleVariant::Product(c, d));
    let mut witness = MultilinearExtensionIndex::new();
    witness.set(a, vec![1, 2]);
    witness.set(b, vec![4, 8]);
    witness.set(c, vec![1, 2, 3, 4]);
    witness.set(d, vec![5, 6, 7, 8]);
    let claims = vec![
        EvalcheckMultilinearClaim { id: p1, eval_point: vec![0], eval: 0 },
        EvalcheckMultilinearClaim { id: p2, eval_point: vec![0, 0], eval: 0 },
    ];
    let mut transcript = ProverTranscript::new(0);
    let r = prove(&oracles, &witness, claims, &(|_x: usize| 1usize), &mut transcript);
    match r {
        Err(Error::MalformedClaim { .. }) => {}
        other => panic!("expected a malformed batch, got {:?}", other.is_ok()),
    }
}

#[test]
fn switchover_policy_does_not_change_results() {
    // Converting early or never converting at all trades memory for
    // compute; the transcript and the terminal claims must not change.
    let (oracles, witness, point, target) = product_setup();
    let claim = EvalcheckMultilinearClaim { id: 2, eval_point: point, eval: target };

    let mut t_early = ProverTranscript::new(3);
    let out_early =
        prove(&oracles, &witness, vec![claim.clone()], &(|_x: usize| 1usize), &mut t_early)
            .expect("early switchover");
    let mut t_late = ProverTranscript::new(3);
    let out_late = prove(&oracles, &witness, vec![claim], &(|_x: usize| 99usize), &mut t_late)
        .expect("late switchover");

    assert_eq!(t_early.bytes, t_late.bytes);
    assert_eq!(out_early.eval_claims, out_late.eval_claims);
}
