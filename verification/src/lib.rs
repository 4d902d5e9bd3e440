//! Prover-side claim-reduction engine of a succinct argument system over a
//! binary extension field.
//!
//! The crate converts a batch of multilinear evaluation claims into a
//! transcript of protocol messages: claims on committed polynomials become
//! terminal openings, claims on virtual (composed) polynomials are reduced,
//! round by round, through a bivariate-product sumcheck, until a fixed point
//! is reached.

use vstd::prelude::*;

pub mod error;
pub mod evalcheck;
pub mod field;
pub mod oracle;
pub mod packed;
pub mod multilinear;
pub mod sumcheck;
pub mod transcript;
pub mod util;
pub mod witness;

use crate::error::Error;
use crate::evalcheck::{
    batch_constraints, batch_constraints_v, batch_err, batch_err_v, batch_proofs, batch_proofs_v,
    batch_replay_v, claims_view, committed_ok, constraint_ok, constraint_view,
    lemma_batch_constraints_depth, lemma_batch_depth_le, lemma_batch_err_kind, lemma_batch_views,
    proofs_bytes, queue_view, sc_depth, serialize_evalcheck_proof, EvalcheckMultilinearClaim,
    EvalcheckProver, EvalcheckProof, MemoizedData,
};
use crate::oracle::{odepth, MultilinearOracleSet, OracleMeta};
use crate::sumcheck::{
    lemma_rounds_trace_views, out_views, prove_bivariate_sumchecks_with_switchover,
    rounds_trace_v, sc_input_ok,
};
use crate::transcript::{lemma_mix_seq_append, mix_seq_spec, ProverTranscript};
use crate::witness::MultilinearExtensionIndex;
use crate::witness::MultilinearExtensionIndex as WitnessIndex;

verus! {

/// The deterministic trace of draining one constraint queue to the fixed
/// point: final challenge state, bytes appended, and terminal claim views
/// produced, or nothing where the session fails or the fuel runs out.
#[verifier::opaque]
pub open spec fn drain_trace(
    osv: Seq<OracleMeta>,
    w: WitnessIndex,
    q: Seq<(usize, usize, Seq<u16>, u16)>,
    st: u64,
    fuel: nat,
) -> Option<(u64, Seq<u8>, Seq<(usize, Seq<u16>, u16)>)>
    decreases fuel,
{
    if q.len() == 0 {
        Some((st, Seq::empty(), Seq::empty()))
    } else if fuel == 0 {
        None
    } else if !(forall|j: int| 0 <= j < q.len() ==> (#[trigger] q[j].2).len() == q[0].2.len()) {
        None
    } else {
        let n = q[0].2.len();
        let tr = rounds_trace_v(w, q, st, n as nat, n as nat);
        let cvs = out_views(w, q, tr.1);
        if batch_err_v(osv, w, cvs) is Some {
            None
        } else {
            let ps = batch_proofs_v(osv, w, cvs);
            let pb = proofs_bytes(ps, cvs.len() as int);
            match drain_trace(
                osv,
                w,
                batch_constraints_v(osv, w, cvs),
                mix_seq_spec(tr.0, pb),
                (fuel - 1) as nat,
            ) {
                Option::None => Option::None,
                Option::Some(rest) => Option::Some(
                    (rest.0, tr.2 + pb + rest.1, batch_replay_v(osv, cvs, ps) + rest.2),
                ),
            }
        }
    }
}

/// The deterministic trace of a whole session: the initial claims' proof
/// messages, then every sumcheck round trip and follow-up batch, down to
/// the fixed point. A session's transcript bytes, challenge state and
/// terminal claims are a function of registry, witness, claims and seed
/// alone: two runs from the same inputs are byte-identical.
#[verifier::opaque]
pub open spec fn session_trace(
    osv: Seq<OracleMeta>,
    w: WitnessIndex,
    cvs: Seq<(usize, Seq<u16>, u16)>,
    st: u64,
    fuel: nat,
) -> Option<(u64, Seq<u8>, Seq<(usize, Seq<u16>, u16)>)> {
    if batch_err_v(osv, w, cvs) is Some {
        Option::None
    } else {
        let ps = batch_proofs_v(osv, w, cvs);
        let pb = proofs_bytes(ps, cvs.len() as int);
        match drain_trace(osv, w, batch_constraints_v(osv, w, cvs), mix_seq_spec(st, pb), fuel) {
            Option::None => Option::None,
            Option::Some(rest) => Option::Some(
                (rest.0, pb + rest.1, batch_replay_v(osv, cvs, ps) + rest.2),
            ),
        }
    }
}

/// What a finished session hands back: the terminal committed-evaluation
/// claims, in production order, and the session's memoized data for the
/// commitment-opening phase that follows.
pub struct GreedyEvalcheckProveOutput {
    pub eval_claims: Vec<EvalcheckMultilinearClaim>,
    pub memoized_data: MemoizedData,
}

/// The greedy claim-reduction loop: prove the initial evalcheck claims,
/// then repeatedly drain the newly produced sumcheck constraints, prove
/// them, and feed the resulting evaluation claims back in, until no new
/// constraints are produced. Every proof artifact is serialized into the
/// transcript immediately, in production order.
///
/// The registry's composition graph is acyclic by construction, so the loop
/// reaches its fixed point within the registry's declared depth and the
/// depth guard never fires.
#[verifier::rlimit(100)]
pub fn prove<F: Fn(usize) -> usize>(
    oracles: &MultilinearOracleSet,
    witness_index: &MultilinearExtensionIndex,
    claims: Vec<EvalcheckMultilinearClaim>,
    switchover_fn: &F,
    transcript: &mut ProverTranscript,
) -> (r: Result<GreedyEvalcheckProveOutput, Error>)
    requires
        oracles.wf(),
        forall|x: usize| #[trigger] switchover_fn.requires((x,)),
    ensures
        r != Err::<GreedyEvalcheckProveOutput, Error>(Error::ReductionDepthExceeded),
        batch_err(oracles.oracles@, *witness_index, claims@) matches Some(e) ==> {
            &&& r == Err::<GreedyEvalcheckProveOutput, Error>(e)
            &&& final(transcript).bytes@ == old(transcript).bytes@
            &&& final(transcript).state == old(transcript).state
        },
        r matches Ok(out) ==> {
            &&& batch_err(oracles.oracles@, *witness_index, claims@) is None
            &&& forall|i: int|
                0 <= i < out.eval_claims@.len() ==> committed_ok(
                    oracles.oracles@,
                    #[trigger] out.eval_claims@[i],
                )
            &&& out.memoized_data.wf()
        },
        r matches Ok(out) ==> ({
            let s = session_trace(
                oracles.oracles@,
                *witness_index,
                claims_view(claims@),
                old(transcript).state,
                oracles.max_depth as nat,
            );
            s matches Some(tt) && final(transcript).bytes@ == old(transcript).bytes@ + tt.1
                && final(transcript).state == tt.0 && claims_view(out.eval_claims@) == tt.2
        }),
        session_trace(
            oracles.oracles@,
            *witness_index,
            claims_view(claims@),
            old(transcript).state,
            oracles.max_depth as nat,
        ) is Some ==> r is Ok,
        batch_err(oracles.oracles@, *witness_index, claims@) is None && batch_constraints(
            oracles.oracles@,
            *witness_index,
            claims@,
        ).len() == 0 ==> ({
            let pb = proofs_bytes(
                batch_proofs(oracles.oracles@, *witness_index, claims@),
                claims@.len() as int,
            );
            &&& r is Ok
            &&& final(transcript).bytes@ == old(transcript).bytes@ + pb
            &&& final(transcript).state == mix_seq_spec(old(transcript).state, pb)
        }),
{
    let ghost osv = oracles.oracles@;
    let ghost w = *witness_index;
    let ghost depth_limit = oracles.max_depth as nat;
    proof {
        assert forall|j: int| 0 <= j < claims@.len() implies odepth(
            osv,
            (#[trigger] claims@[j]).id as int,
        ) <= depth_limit by {
            if claims@[j].id < osv.len() {
            } else {
                assert(odepth(osv, claims@[j].id as int) == 0);
            }
        }
        lemma_batch_depth_le(osv, claims@, depth_limit);
    }
    let mut evalcheck_prover = EvalcheckProver::new();

    // Prove the initial evalcheck claims.
    let ghost initial_claims = claims@;
    let evalcheck_proofs = match evalcheck_prover.prove(oracles, witness_index, claims) {
        Ok(ps) => ps,
        Err(e) => {
            proof {
                reveal(session_trace);
                lemma_batch_err_kind(osv, w, initial_claims);
                lemma_batch_views(osv, w, initial_claims, Seq::<EvalcheckProof>::empty());
            }
            return Err(e);
        },
    };
    proof {
        lemma_batch_constraints_depth(*oracles, w, initial_claims);
        let bc = batch_constraints(osv, w, initial_claims);
        assert(queue_view(evalcheck_prover.new_sumchecks@) =~= bc);
        assert forall|i2: int|
            0 <= i2 < evalcheck_prover.new_sumchecks@.len() implies sc_depth(
            osv,
            constraint_view(#[trigger] evalcheck_prover.new_sumchecks@[i2]),
        ) + 1 <= depth_limit by {
            assert(constraint_view(evalcheck_prover.new_sumchecks@[i2]) == queue_view(
                evalcheck_prover.new_sumchecks@,
            )[i2]);
            assert(sc_depth(osv, bc[i2]) < evalcheck::batch_depth(osv, initial_claims));
        }
    }

    let ghost pre_bytes = transcript.bytes@;
    let ghost pre_state = transcript.state;
    let mut i: usize = 0;
    proof {
        assert(transcript.bytes@ =~= pre_bytes + proofs_bytes(evalcheck_proofs@, 0));
        assert(mix_seq_spec(pre_state, Seq::<u8>::empty()) == pre_state);
    }
    while i < evalcheck_proofs.len()
        invariant
            i <= evalcheck_proofs@.len(),
            transcript.bytes@ == pre_bytes + proofs_bytes(evalcheck_proofs@, i as int),
            transcript.state == mix_seq_spec(
                pre_state,
                proofs_bytes(evalcheck_proofs@, i as int),
            ),
        decreases evalcheck_proofs@.len() - i,
    {
        serialize_evalcheck_proof(transcript, &evalcheck_proofs[i]);
        proof {
            lemma_mix_seq_append(
                pre_state,
                proofs_bytes(evalcheck_proofs@, i as int),
                crate::evalcheck::proof_bytes(evalcheck_proofs@[i as int]),
            );
            assert(transcript.bytes@ =~= pre_bytes + proofs_bytes(evalcheck_proofs@, i + 1));
        }
        i = i + 1;
    }

    let ghost target = session_trace(
        osv,
        w,
        claims_view(initial_claims),
        old(transcript).state,
        depth_limit,
    );
    let ghost mut bytes_done: Seq<u8> = proofs_bytes(
        evalcheck_proofs@,
        initial_claims.len() as int,
    );
    let ghost mut prod_done: Seq<(usize, Seq<u16>, u16)> = batch_replay_v(
        osv,
        claims_view(initial_claims),
        evalcheck_proofs@,
    );
    proof {
        reveal(session_trace);
        reveal(drain_trace);
        lemma_batch_views(osv, w, initial_claims, evalcheck_proofs@);
        assert(claims_view(Seq::<EvalcheckMultilinearClaim>::empty()) =~= Seq::<(
            usize,
            Seq<u16>,
            u16,
        )>::empty());
        assert(claims_view(evalcheck_prover.committed_eval_claims@) =~= prod_done);
        assert(queue_view(evalcheck_prover.new_sumchecks@) =~= batch_constraints_v(
            osv,
            w,
            claims_view(initial_claims),
        ));
        assert(batch_proofs_v(osv, w, claims_view(initial_claims)) == evalcheck_proofs@);
        assert(claims_view(initial_claims).len() == initial_claims.len());
        assert(transcript.state == mix_seq_spec(old(transcript).state, bytes_done));
        let d0 = drain_trace(
            osv,
            w,
            queue_view(evalcheck_prover.new_sumchecks@),
            transcript.state,
            depth_limit,
        );
        assert(match d0 {
            Option::None => target is None,
            Option::Some(rest) => target == Option::Some(
                (rest.0, bytes_done + rest.1, prod_done + rest.2),
            ),
        });
    }
    let mut iterations: usize = 0;
    loop
        invariant
            oracles.wf(),
            osv == oracles.oracles@,
            w == *witness_index,
            forall|x: usize| #[trigger] switchover_fn.requires((x,)),
            evalcheck_prover.inv(osv, w),
            batch_err(osv, w, initial_claims) is None,
            initial_claims == claims@,
            depth_limit == oracles.max_depth as nat,
            iterations <= oracles.max_depth,
            forall|i2: int|
                0 <= i2 < evalcheck_prover.new_sumchecks@.len() ==> sc_depth(
                    osv,
                    constraint_view(#[trigger] evalcheck_prover.new_sumchecks@[i2]),
                ) + 1 + iterations <= depth_limit,
            batch_constraints(osv, w, initial_claims).len() == 0
                ==> evalcheck_prover.new_sumchecks@.len() == 0,
            batch_constraints(osv, w, initial_claims).len() == 0 ==> ({
                let pb = proofs_bytes(
                    batch_proofs(osv, w, initial_claims),
                    initial_claims.len() as int,
                );
                &&& transcript.bytes@ == old(transcript).bytes@ + pb
                &&& transcript.state == mix_seq_spec(old(transcript).state, pb)
            }),
            target == session_trace(
                osv,
                w,
                claims_view(initial_claims),
                old(transcript).state,
                depth_limit,
            ),
            transcript.bytes@ == old(transcript).bytes@ + bytes_done,
            claims_view(evalcheck_prover.committed_eval_claims@) == prod_done,
            ({
                match drain_trace(
                    osv,
                    w,
                    queue_view(evalcheck_prover.new_sumchecks@),
                    transcript.state,
                    (depth_limit - iterations) as nat,
                ) {
                    Option::None => target is None,
                    Option::Some(rest) => target == Option::Some(
                        (rest.0, bytes_done + rest.1, prod_done + rest.2),
                    ),
                }
            }),
        ensures
            evalcheck_prover.inv(osv, w),
            evalcheck_prover.new_sumchecks@.len() == 0,
            transcript.bytes@ == old(transcript).bytes@ + bytes_done,
            claims_view(evalcheck_prover.committed_eval_claims@) == prod_done,
            target == Option::Some((transcript.state, bytes_done, prod_done)),
            target == session_trace(
                osv,
                w,
                claims_view(initial_claims),
                old(transcript).state,
                depth_limit,
            ),
            initial_claims == claims@,
            depth_limit == oracles.max_depth as nat,
            osv == oracles.oracles@,
            w == *witness_index,
            batch_err(osv, w, initial_claims) is None,
            batch_constraints(osv, w, initial_claims).len() == 0 ==> ({
                let pb = proofs_bytes(
                    batch_proofs(osv, w, initial_claims),
                    initial_claims.len() as int,
                );
                &&& transcript.bytes@ == old(transcript).bytes@ + pb
                &&& transcript.state == mix_seq_spec(old(transcript).state, pb)
            }),
        decreases oracles.max_depth - iterations,
    {
        let ghost q_pre = evalcheck_prover.new_sumchecks@;
        let new_sumchecks = evalcheck_prover.take_new_sumchecks_constraints();
        proof {
            assert(new_sumchecks@ == q_pre);
        }
        if new_sumchecks.len() == 0 {
            proof {
                reveal(drain_trace);
                let empty_trace = Option::Some(
                    (transcript.state, Seq::<u8>::empty(), Seq::<(usize, Seq<u16>, u16)>::empty()),
                );
                assert(queue_view(q_pre).len() == 0);
                assert(drain_trace(
                    osv,
                    w,
                    queue_view(q_pre),
                    transcript.state,
                    (depth_limit - iterations) as nat,
                ) == empty_trace);
                assert(queue_view(evalcheck_prover.new_sumchecks@).len() == 0);
                assert(drain_trace(
                    osv,
                    w,
                    queue_view(evalcheck_prover.new_sumchecks@),
                    transcript.state,
                    (depth_limit - iterations) as nat,
                ) == empty_trace);
                assert(bytes_done + Seq::<u8>::empty() =~= bytes_done);
                assert(prod_done + Seq::<(usize, Seq<u16>, u16)>::empty() =~= prod_done);
                assert(target == Option::Some((transcript.state, bytes_done, prod_done)));
            }
            break ;
        }
        if iterations >= oracles.max_depth {
            proof {
                assert(0 < q_pre.len());
                assert(sc_depth(osv, constraint_view(q_pre[0])) + 1 + iterations
                    <= depth_limit);
                assert(false);
            }
            return Err(Error::ReductionDepthExceeded);
        }
        iterations = iterations + 1;

        proof {
            assert forall|j: int| 0 <= j < new_sumchecks@.len() implies sc_input_ok(
                w,
                #[trigger] new_sumchecks@[j],
            ) by {
                assert(new_sumchecks@[j] == q_pre[j]);
                assert(constraint_ok(osv, w, constraint_view(q_pre[j])));
            }
        }
        // Reduce the sumcheck constraints for virtual polynomial openings to
        // new evalcheck claims.
        let ghost st_head = transcript.state;
        let ghost bytes_head = transcript.bytes@;
        let new_evalcheck_claims = match prove_bivariate_sumchecks_with_switchover(
            witness_index,
            new_sumchecks,
            transcript,
            switchover_fn,
            &mut evalcheck_prover.memoized_data,
        ) {
            Ok(cs) => cs,
            Err(e) => {
                proof {
                    reveal(drain_trace);
                    let qv = queue_view(q_pre);
                    assert(exists|j: int|
                        0 <= j < q_pre.len() && (#[trigger] q_pre[j].eq_point@).len()
                            != q_pre[0].eq_point@.len());
                    let j = choose|j: int|
                        0 <= j < q_pre.len() && (#[trigger] q_pre[j].eq_point@).len()
                            != q_pre[0].eq_point@.len();
                    assert(qv[j].2.len() != qv[0].2.len());
                    assert(drain_trace(
                        osv,
                        w,
                        qv,
                        transcript.state,
                        (depth_limit - (iterations - 1)) as nat,
                    ) is None);
                }
                return Err(e);
            },
        };
        proof {
            assert forall|j: int| 0 <= j < new_evalcheck_claims@.len() implies odepth(
                osv,
                (#[trigger] new_evalcheck_claims@[j]).id as int,
            ) + 1 + (iterations - 1) <= depth_limit by {
                let t = j / 2;
                assert(j == 2 * t || j == 2 * t + 1);
                assert(new_evalcheck_claims@[2 * t].id == q_pre[t].a);
                assert(new_evalcheck_claims@[2 * t + 1].id == q_pre[t].b);
                assert(sc_depth(osv, constraint_view(q_pre[t])) + 1 + (iterations - 1)
                    <= depth_limit);
                assert(odepth(osv, q_pre[t].a as int) <= sc_depth(osv, constraint_view(q_pre[t])));
                assert(odepth(osv, q_pre[t].b as int) <= sc_depth(osv, constraint_view(q_pre[t])));
            }
            lemma_batch_depth_le(
                osv,
                new_evalcheck_claims@,
                (depth_limit - iterations) as nat,
            );
        }

        let ghost round_claims = new_evalcheck_claims@;
        let new_evalcheck_proofs = match evalcheck_prover.prove(
            oracles,
            witness_index,
            new_evalcheck_claims,
        ) {
            Ok(ps) => ps,
            Err(e) => {
                proof {
                    reveal(drain_trace);
                    lemma_batch_err_kind(osv, w, round_claims);
                    lemma_batch_views(osv, w, round_claims, Seq::<EvalcheckProof>::empty());
                    lemma_rounds_trace_views(
                        w,
                        q_pre,
                        st_head,
                        q_pre[0].eq_point@.len() as nat,
                        q_pre[0].eq_point@.len() as nat,
                    );
                    assert(drain_trace(
                        osv,
                        w,
                        queue_view(q_pre),
                        st_head,
                        (depth_limit - (iterations - 1)) as nat,
                    ) is None);
                }
                return Err(e);
            },
        };
        proof {
            lemma_batch_constraints_depth(*oracles, w, round_claims);
            let bc = batch_constraints(osv, w, round_claims);
            assert(queue_view(evalcheck_prover.new_sumchecks@) =~= bc);
            assert forall|i2: int|
                0 <= i2 < evalcheck_prover.new_sumchecks@.len() implies sc_depth(
                osv,
                constraint_view(#[trigger] evalcheck_prover.new_sumchecks@[i2]),
            ) + 1 + iterations <= depth_limit by {
                assert(constraint_view(evalcheck_prover.new_sumchecks@[i2]) == queue_view(
                    evalcheck_prover.new_sumchecks@,
                )[i2]);
                assert(sc_depth(osv, bc[i2]) < evalcheck::batch_depth(osv, round_claims));
                assert(evalcheck::batch_depth(osv, round_claims) <= depth_limit - iterations);
            }
        }

        let ghost pre2_bytes = transcript.bytes@;
        let ghost pre2_state = transcript.state;
        let mut i2: usize = 0;
        proof {
            assert(transcript.bytes@ =~= pre2_bytes + proofs_bytes(new_evalcheck_proofs@, 0));
            assert(mix_seq_spec(pre2_state, Seq::<u8>::empty()) == pre2_state);
        }
        while i2 < new_evalcheck_proofs.len()
            invariant
                i2 <= new_evalcheck_proofs@.len(),
                transcript.bytes@ == pre2_bytes + proofs_bytes(new_evalcheck_proofs@, i2 as int),
                transcript.state == mix_seq_spec(
                    pre2_state,
                    proofs_bytes(new_evalcheck_proofs@, i2 as int),
                ),
            decreases new_evalcheck_proofs@.len() - i2,
        {
            serialize_evalcheck_proof(transcript, &new_evalcheck_proofs[i2]);
            proof {
                lemma_mix_seq_append(
                    pre2_state,
                    proofs_bytes(new_evalcheck_proofs@, i2 as int),
                    crate::evalcheck::proof_bytes(new_evalcheck_proofs@[i2 as int]),
                );
                assert(transcript.bytes@ =~= pre2_bytes + proofs_bytes(
                    new_evalcheck_proofs@,
                    i2 + 1,
                ));
            }
            i2 = i2 + 1;
        }
        proof {
            reveal(drain_trace);
            let qv = queue_view(q_pre);
            let n = (q_pre[0].eq_point@.len()) as nat;
            lemma_rounds_trace_views(w, q_pre, st_head, n, n);
            let tr = rounds_trace_v(w, qv, st_head, n, n);
            let cvs = out_views(w, qv, tr.1);
            assert(claims_view(round_claims) == cvs);
            lemma_batch_views(osv, w, round_claims, new_evalcheck_proofs@);
            let ps = batch_proofs_v(osv, w, cvs);
            assert(new_evalcheck_proofs@ == ps);
            let pb = proofs_bytes(ps, cvs.len() as int);
            assert(new_evalcheck_proofs@.len() == cvs.len());
            assert(pre2_bytes == bytes_head + tr.2);
            assert(pre2_state == tr.0);
            assert(transcript.state == mix_seq_spec(tr.0, pb));
            assert(transcript.bytes@ =~= bytes_head + (tr.2 + pb));
            assert(queue_view(evalcheck_prover.new_sumchecks@) =~= batch_constraints_v(
                osv,
                w,
                cvs,
            ));
            assert(claims_view(evalcheck_prover.committed_eval_claims@) =~= prod_done
                + batch_replay_v(osv, cvs, ps));
            let fuel0 = (depth_limit - (iterations - 1)) as nat;
            assert(drain_trace(osv, w, qv, st_head, fuel0) == (match drain_trace(
                osv,
                w,
                batch_constraints_v(osv, w, cvs),
                mix_seq_spec(tr.0, pb),
                (fuel0 - 1) as nat,
            ) {
                Option::None => Option::<(u64, Seq<u8>, Seq<(usize, Seq<u16>, u16)>)>::None,
                Option::Some(rest) => Option::Some(
                    (rest.0, tr.2 + pb + rest.1, batch_replay_v(osv, cvs, ps) + rest.2),
                ),
            }));
            let bd0 = bytes_done;
            let pd0 = prod_done;
            bytes_done = bytes_done + (tr.2 + pb);
            prod_done = prod_done + batch_replay_v(osv, cvs, ps);
            assert(transcript.bytes@ =~= old(transcript).bytes@ + bytes_done);
            match drain_trace(
                osv,
                w,
                batch_constraints_v(osv, w, cvs),
                mix_seq_spec(tr.0, pb),
                (fuel0 - 1) as nat,
            ) {
                Option::None => {
                    assert(drain_trace(osv, w, qv, st_head, fuel0) is None);
                    assert(target is None);
                },
                Option::Some(rest) => {
                    assert(drain_trace(osv, w, qv, st_head, fuel0) == Option::Some(
                        (rest.0, tr.2 + pb + rest.1, batch_replay_v(osv, cvs, ps) + rest.2),
                    ));
                    assert(target == Option::Some(
                        (
                            rest.0,
                            bd0 + (tr.2 + pb + rest.1),
                            pd0 + (batch_replay_v(osv, cvs, ps) + rest.2),
                        ),
                    ));
                    assert(bytes_done + rest.1 =~= bd0 + (tr.2 + pb + rest.1));
                    assert(prod_done + rest.2 =~= pd0 + (batch_replay_v(osv, cvs, ps)
                        + rest.2));
                    assert(target == Option::Some(
                        (rest.0, bytes_done + rest.1, prod_done + rest.2),
                    ));
                },
            }
        }
    }

    proof {
        assert(claims_view(initial_claims) == claims_view(claims@));
    }
    let mut committed_claims: Vec<EvalcheckMultilinearClaim> = Vec::new();
    core::mem::swap(&mut committed_claims, evalcheck_prover.committed_eval_claims_mut());

    Ok(GreedyEvalcheckProveOutput {
        eval_claims: committed_claims,
        memoized_data: evalcheck_prover.memoized_data,
    })
}

} // verus!
