//! The bivariate-product sumcheck prover.
//!
//! A batch of constraints sharing round structure is proven together, round
//! by round: for every live constraint the round polynomial of the composite
//! `eq * A * B` is written to the transcript, one challenge is drawn, and
//! every bound multilinear representation is folded at that challenge —
//! converting Transparent to Folded exactly at its switchover round. After
//! all variables are bound, the final evaluations become new evaluation
//! claims on the constituent polynomials.

use vstd::prelude::*;

use crate::error::Error;
use crate::evalcheck::{
    claims_view, copy_scalars, queue_view, EvalcheckMultilinearClaim, MemoizedData,
    SumcheckConstraint,
};
use crate::field::{fe_mul, fe_mul_spec};
use crate::multilinear::{
    const_run, eq_expand_spec, eval_multilinear, fold_multi, fold_scalars,
    lemma_const_run_at_least, lemma_const_run_sound, lemma_fold_multi_snoc, MultilinPoly,
    SumcheckMultilinear,
};
use crate::packed::{pack_scalars, padded_get, scalar_or, PackedElem};
use crate::transcript::{
    advance_spec, challenge_of, lemma_mix_seq_append, mix_seq_spec, scalar_bytes,
    ProverTranscript,
};
use crate::util::{lemma_pow2_bounds, lemma_pow2_le, pow2, MAX_VARS};
use crate::witness::MultilinearExtensionIndex;

verus! {

/// The four coefficient contributions of one folded pair to the cubic round
/// polynomial of `eq * A * B`.
pub open spec fn pair_terms(e0: u16, e1: u16, a0: u16, a1: u16, b0: u16, b1: u16) -> (
    u16,
    u16,
    u16,
    u16,
) {
    let de = e0 ^ e1;
    let da = a0 ^ a1;
    let db = b0 ^ b1;
    (
        fe_mul_spec(fe_mul_spec(e0, a0), b0),
        fe_mul_spec(fe_mul_spec(e0, a0), db) ^ fe_mul_spec(fe_mul_spec(e0, da), b0) ^ fe_mul_spec(
            fe_mul_spec(de, a0),
            b0,
        ),
        fe_mul_spec(fe_mul_spec(e0, da), db) ^ fe_mul_spec(fe_mul_spec(de, a0), db) ^ fe_mul_spec(
            fe_mul_spec(de, da),
            b0,
        ),
        fe_mul_spec(fe_mul_spec(de, da), db),
    )
}

/// Coefficients of the round polynomial accumulated over the first `k`
/// adjacent pairs.
pub open spec fn round_coeffs_spec(eq: Seq<u16>, a: Seq<u16>, b: Seq<u16>, k: nat) -> (
    u16,
    u16,
    u16,
    u16,
)
    decreases k,
{
    if k == 0 {
        (0u16, 0u16, 0u16, 0u16)
    } else {
        let p = round_coeffs_spec(eq, a, b, (k - 1) as nat);
        let i = (k - 1) as int;
        let t = pair_terms(eq[2 * i], eq[2 * i + 1], a[2 * i], a[2 * i + 1], b[2 * i], b[2 * i + 1]);
        (p.0 ^ t.0, p.1 ^ t.1, p.2 ^ t.2, p.3 ^ t.3)
    }
}

/// Compute the round polynomial's coefficients over a whole table.
pub fn round_coeffs(eq: &Vec<u16>, a: &Vec<u16>, b: &Vec<u16>) -> (r: (u16, u16, u16, u16))
    requires
        eq@.len() == a@.len(),
        eq@.len() == b@.len(),
        eq@.len() % 2 == 0,
    ensures
        r == round_coeffs_spec(eq@, a@, b@, (eq@.len() / 2) as nat),
{
    let half: usize = eq.len() / 2;
    let mut c0: u16 = 0;
    let mut c1: u16 = 0;
    let mut c2: u16 = 0;
    let mut c3: u16 = 0;
    let mut i: usize = 0;
    while i < half
        invariant
            i <= half,
            half == eq@.len() / 2,
            eq@.len() % 2 == 0,
            eq@.len() <= usize::MAX,
            eq@.len() == a@.len(),
            eq@.len() == b@.len(),
            (c0, c1, c2, c3) == round_coeffs_spec(eq@, a@, b@, i as nat),
        decreases half - i,
    {
        proof {
            assert(2 * i + 1 < eq@.len());
        }
        let e0 = eq[2 * i];
        let e1 = eq[2 * i + 1];
        let a0 = a[2 * i];
        let a1 = a[2 * i + 1];
        let b0 = b[2 * i];
        let b1 = b[2 * i + 1];
        let de = e0 ^ e1;
        let da = a0 ^ a1;
        let db = b0 ^ b1;
        let t0 = fe_mul(fe_mul(e0, a0), b0);
        let t1 = fe_mul(fe_mul(e0, a0), db) ^ fe_mul(fe_mul(e0, da), b0) ^ fe_mul(
            fe_mul(de, a0),
            b0,
        );
        let t2 = fe_mul(fe_mul(e0, da), db) ^ fe_mul(fe_mul(de, a0), db) ^ fe_mul(
            fe_mul(de, da),
            b0,
        );
        let t3 = fe_mul(fe_mul(de, da), db);
        c0 = c0 ^ t0;
        c1 = c1 ^ t1;
        c2 = c2 ^ t2;
        c3 = c3 ^ t3;
        i = i + 1;
    }
    (c0, c1, c2, c3)
}

/// Find the longest constant run at the end of a scalar table.
pub fn detect_const_run(s: &Vec<u16>) -> (r: (u16, usize))
    requires
        s@.len() >= 1,
    ensures
        r.0 == s@[s@.len() - 1],
        1 <= r.1 <= s@.len(),
        r.1 as int == const_run(s@),
{
    let v = s[s.len() - 1];
    let mut run: usize = 1;
    while run < s.len() && s[s.len() - 1 - run] == v
        invariant
            1 <= run <= s@.len(),
            v == s@[s@.len() - 1],
            forall|j: int| s@.len() - run <= j < s@.len() ==> s@[j] == v,
        decreases s@.len() - run,
    {
        run = run + 1;
    }
    proof {
        lemma_const_run_at_least(s@, run as int);
        lemma_const_run_sound(s@);
        if const_run(s@) > run as int {
            assert(s@[s@.len() - run - 1] == v);
        }
    }
    (v, run)
}

/// What a representation stands for mid-instance: `orig` folded by the
/// challenges bound so far, at `rem` remaining variables.
pub open spec fn tracks(
    rep: SumcheckMultilinear,
    orig: Seq<u16>,
    n_vars: nat,
    rem: nat,
    cs: Seq<u16>,
) -> bool {
    &&& rep.wf()
    &&& cs.len() + rem == n_vars
    &&& n_vars <= MAX_VARS
    &&& orig.len() == pow2(n_vars)
    &&& (rep.is_transparent() ==> rep.unfolded().evals@ == orig && rep.unfolded().n_vars == n_vars)
    &&& (!rep.is_transparent() ==> rep.spec_current_scalars(rem, cs) == fold_multi(orig, cs))
}

/// A tracking representation's current table is the folded original.
pub proof fn lemma_tracks_current(
    rep: SumcheckMultilinear,
    orig: Seq<u16>,
    n_vars: nat,
    rem: nat,
    cs: Seq<u16>,
)
    requires
        tracks(rep, orig, n_vars, rem, cs),
    ensures
        rep.spec_current_scalars(rem, cs) == fold_multi(orig, cs),
{
}

/// After packing a table and compacting its constant run, the padded view
/// still reads the whole table.
proof fn lemma_compacted_view(
    scalars: Seq<u16>,
    packed: Seq<PackedElem>,
    stored: Seq<PackedElem>,
    v: u16,
    run: int,
    m: nat,
)
    requires
        scalars.len() == pow2(m),
        4 * packed.len() == 4 * ((scalars.len() + 3) / 4),
        forall|j: int|
            0 <= j < 4 * packed.len() ==> crate::packed::packed_get(packed, j) == scalar_or(
                scalars,
                v,
                j,
            ),
        1 <= run <= scalars.len(),
        forall|j: int| scalars.len() - run <= j < scalars.len() ==> scalars[j] == v,
        ({
            let keep = (pow2(m) - run + 3) / 4;
            stored == (if keep < packed.len() {
                packed.subrange(0, keep)
            } else {
                packed
            })
        }),
    ensures
        Seq::new(pow2(m), |j: int| padded_get(stored, v, j)) == scalars,
{
    let keep = (pow2(m) - run + 3) / 4;
    assert forall|j: int| 0 <= j < pow2(m) implies padded_get(stored, v, j) == scalars[j] by {
        if j < 4 * stored.len() {
            assert(stored[j / 4] == packed[j / 4]);
            assert(j == 4 * (j / 4) + j % 4 && 0 <= j % 4 < 4);
            assert(crate::packed::packed_get(stored, j) == crate::packed::packed_get(packed, j));
            assert(scalar_or(scalars, v, j) == scalars[j]);
        } else {
            if keep < packed.len() {
                assert(4 * keep >= pow2(m) - run);
            } else {
                assert(4 * stored.len() >= scalars.len());
            }
            assert(j >= scalars.len() - run);
            assert(scalars[j] == v);
        }
    }
    assert(Seq::new(pow2(m), |j: int| padded_get(stored, v, j)) =~= scalars);
}

/// Fold one representation at challenge `c`, halving its domain and
/// compacting any constant tail; a Transparent value converts to Folded
/// exactly when the bound-variable count reaches its switchover round.
fn fold_rep(
    rep: &mut SumcheckMultilinear,
    n_vars: usize,
    rem: usize,
    challenges: &Vec<u16>,
    c: u16,
    Ghost(orig): Ghost<Seq<u16>>,
)
    requires
        1 <= rem,
        tracks(*old(rep), orig, n_vars as nat, rem as nat, challenges@),
    ensures
        tracks(*final(rep), orig, n_vars as nat, (rem - 1) as nat, challenges@.push(c)),
        final(rep).is_transparent() ==> old(rep).is_transparent(),
{
    let ghost cs_new = challenges@.push(c);
    proof {
        lemma_pow2_bounds(rem as nat);
        lemma_pow2_bounds((rem - 1) as nat);
        lemma_pow2_le((rem - 1) as nat, n_vars as nat);
    }
    let keep_transparent: bool = match &*rep {
        SumcheckMultilinear::Transparent { switchover_round, .. } => challenges.len() + 1
            < *switchover_round,
        SumcheckMultilinear::Folded { .. } => false,
    };
    if keep_transparent {
        return ;
    }
    let cur = rep.current_scalars(rem, challenges);
    let folded_scalars = fold_scalars(&cur, c);
    proof {
        assert(pow2(rem as nat) == 2 * pow2((rem - 1) as nat));
        assert(folded_scalars@.len() == pow2((rem - 1) as nat));
        lemma_tracks_current(*old(rep), orig, n_vars as nat, rem as nat, challenges@);
        lemma_fold_multi_snoc(orig, challenges@, c);
        assert(folded_scalars@ == fold_multi(orig, cs_new));
    }
    let (v, run) = detect_const_run(&folded_scalars);
    let packed = pack_scalars(&folded_scalars, v);
    proof {
        assert(4 * packed@.len() <= pow2((rem - 1) as nat) + 3);
        assert(packed@.len() <= 0x400000);
    }
    let ghost packed_view = packed@;
    *rep = SumcheckMultilinear::folded(packed);
    rep.update_const_suffix(rem - 1, (v, run));
    proof {
        lemma_const_run_sound(folded_scalars@);
        lemma_compacted_view(
            folded_scalars@,
            packed_view,
            rep.stored(),
            v,
            run as int,
            (rem - 1) as nat,
        );
        assert(rep.spec_current_scalars((rem - 1) as nat, cs_new) =~= Seq::new(
            pow2((rem - 1) as nat),
            |j: int| padded_get(rep.stored(), rep.suffix_scalar(), j),
        ));
    }
}


/// The byte encoding of one constraint's round message: the four
/// coefficients of its round polynomial at challenge prefix `cs`.
pub open spec fn round_message(
    w: MultilinearExtensionIndex,
    c: SumcheckConstraint,
    cs: Seq<u16>,
    rem: nat,
) -> Seq<u8> {
    let co = round_coeffs_spec(
        fold_multi(eq_expand_spec(c.eq_point@), cs),
        fold_multi(w.spec_get(c.a as int).unwrap(), cs),
        fold_multi(w.spec_get(c.b as int).unwrap(), cs),
        (pow2(rem) / 2) as nat,
    );
    scalar_bytes(co.0) + scalar_bytes(co.1) + scalar_bytes(co.2) + scalar_bytes(co.3)
}

/// The bytes of the round messages of the first `j` constraints of a batch.
pub open spec fn pass_bytes(
    w: MultilinearExtensionIndex,
    q: Seq<SumcheckConstraint>,
    cs: Seq<u16>,
    rem: nat,
    j: int,
) -> Seq<u8>
    decreases j,
{
    if j <= 0 {
        Seq::empty()
    } else {
        pass_bytes(w, q, cs, rem, j - 1) + round_message(w, q[j - 1], cs, rem)
    }
}

/// The deterministic transcript evolution of the first `k` sumcheck rounds
/// of a batch: challenge state, challenges drawn, bytes appended. The whole
/// round trip is a function of witness, constraints and entry state alone —
/// two runs from the same inputs produce byte-identical messages.
pub open spec fn rounds_trace(
    w: MultilinearExtensionIndex,
    q: Seq<SumcheckConstraint>,
    st0: u64,
    n_vars: nat,
    k: nat,
) -> (u64, Seq<u16>, Seq<u8>)
    decreases k,
{
    if k == 0 {
        (st0, Seq::empty(), Seq::empty())
    } else {
        let prev = rounds_trace(w, q, st0, n_vars, (k - 1) as nat);
        let rem = (n_vars - (k - 1)) as nat;
        let pb = pass_bytes(w, q, prev.1, rem, q.len() as int);
        let st_mid = mix_seq_spec(prev.0, pb);
        (advance_spec(st_mid), prev.1.push(challenge_of(st_mid)), prev.2 + pb)
    }
}


/// The byte encoding of one round message, the constraint given by its view.
pub open spec fn round_message_v(
    w: MultilinearExtensionIndex,
    c: (usize, usize, Seq<u16>, u16),
    cs: Seq<u16>,
    rem: nat,
) -> Seq<u8> {
    let co = round_coeffs_spec(
        fold_multi(eq_expand_spec(c.2), cs),
        fold_multi(w.spec_get(c.0 as int).unwrap(), cs),
        fold_multi(w.spec_get(c.1 as int).unwrap(), cs),
        (pow2(rem) / 2) as nat,
    );
    scalar_bytes(co.0) + scalar_bytes(co.1) + scalar_bytes(co.2) + scalar_bytes(co.3)
}

/// Round-message bytes of the first `j` constraints, given by their views.
pub open spec fn pass_bytes_v(
    w: MultilinearExtensionIndex,
    q: Seq<(usize, usize, Seq<u16>, u16)>,
    cs: Seq<u16>,
    rem: nat,
    j: int,
) -> Seq<u8>
    decreases j,
{
    if j <= 0 {
        Seq::empty()
    } else {
        pass_bytes_v(w, q, cs, rem, j - 1) + round_message_v(w, q[j - 1], cs, rem)
    }
}

/// The transcript evolution of the first `k` rounds, the batch given by its
/// views.
pub open spec fn rounds_trace_v(
    w: MultilinearExtensionIndex,
    q: Seq<(usize, usize, Seq<u16>, u16)>,
    st0: u64,
    n_vars: nat,
    k: nat,
) -> (u64, Seq<u16>, Seq<u8>)
    decreases k,
{
    if k == 0 {
        (st0, Seq::empty(), Seq::empty())
    } else {
        let prev = rounds_trace_v(w, q, st0, n_vars, (k - 1) as nat);
        let rem = (n_vars - (k - 1)) as nat;
        let pb = pass_bytes_v(w, q, prev.1, rem, q.len() as int);
        let st_mid = mix_seq_spec(prev.0, pb);
        (advance_spec(st_mid), prev.1.push(challenge_of(st_mid)), prev.2 + pb)
    }
}

/// A pass reads the batch only through its views.
proof fn lemma_pass_views(
    w: MultilinearExtensionIndex,
    q: Seq<SumcheckConstraint>,
    cs: Seq<u16>,
    rem: nat,
    j: int,
)
    requires
        j <= q.len(),
    ensures
        pass_bytes(w, q, cs, rem, j) == pass_bytes_v(w, queue_view(q), cs, rem, j),
    decreases j,
{
    if j > 0 {
        lemma_pass_views(w, q, cs, rem, j - 1);
        assert(queue_view(q)[j - 1] == crate::evalcheck::constraint_view(q[j - 1]));
    }
}

/// The rounds trace reads the batch only through its views.
pub proof fn lemma_rounds_trace_views(
    w: MultilinearExtensionIndex,
    q: Seq<SumcheckConstraint>,
    st0: u64,
    n_vars: nat,
    k: nat,
)
    ensures
        rounds_trace(w, q, st0, n_vars, k) == rounds_trace_v(w, queue_view(q), st0, n_vars, k),
    decreases k,
{
    if k > 0 {
        lemma_rounds_trace_views(w, q, st0, n_vars, (k - 1) as nat);
        let prev = rounds_trace(w, q, st0, n_vars, (k - 1) as nat);
        lemma_pass_views(w, q, prev.1, (n_vars - (k - 1)) as nat, q.len() as int);
        assert(queue_view(q).len() == q.len());
    }
}

/// The claim views a proven batch hands back: two per constraint, each the
/// true evaluation of its constituent witness at the sampled point.
pub open spec fn out_views(
    w: MultilinearExtensionIndex,
    q: Seq<(usize, usize, Seq<u16>, u16)>,
    point: Seq<u16>,
) -> Seq<(usize, Seq<u16>, u16)> {
    Seq::new(
        2 * q.len(),
        |k: int| if k % 2 == 0 {
            (q[k / 2].0, point, eval_multilinear(w.spec_get(q[k / 2].0 as int).unwrap(), point))
        } else {
            (q[k / 2].1, point, eval_multilinear(w.spec_get(q[k / 2].1 as int).unwrap(), point))
        },
    )
}

/// A constraint's inputs are available: the weighting point is in range and
/// both constituent witnesses cover their hypercube.
pub open spec fn sc_input_ok(w: MultilinearExtensionIndex, c: SumcheckConstraint) -> bool {
    &&& c.eq_point@.len() <= MAX_VARS
    &&& w.spec_get(c.a as int) is Some
    &&& w.spec_get(c.a as int).unwrap().len() == pow2(c.eq_point@.len())
    &&& w.spec_get(c.b as int) is Some
    &&& w.spec_get(c.b as int).unwrap().len() == pow2(c.eq_point@.len())
}

/// Prove a batch of sumcheck constraints sharing round structure, one round
/// at a time, and return the final evaluation claims — two per constraint,
/// each the true evaluation of its constituent witness at the sampled
/// challenge point.
pub fn prove_bivariate_sumchecks_with_switchover<F: Fn(usize) -> usize>(
    witness_index: &MultilinearExtensionIndex,
    constraints: Vec<SumcheckConstraint>,
    transcript: &mut ProverTranscript,
    switchover_fn: &F,
    memoized_data: &mut MemoizedData,
) -> (r: Result<Vec<EvalcheckMultilinearClaim>, Error>)
    requires
        forall|j: int|
            0 <= j < constraints@.len() ==> sc_input_ok(
                *witness_index,
                #[trigger] constraints@[j],
            ),
        forall|x: usize| #[trigger] switchover_fn.requires((x,)),
        old(memoized_data).wf(),
    ensures
        final(memoized_data).wf(),
        r is Ok <==> (forall|j: int|
            0 <= j < constraints@.len() ==> (#[trigger] constraints@[j].eq_point@).len()
                == constraints@[0].eq_point@.len()),
        r matches Err(e) ==> e is MalformedClaim,
        r matches Ok(out) ==> {
            &&& out@.len() == 2 * constraints@.len()
            &&& forall|j: int|
                0 <= j < constraints@.len() ==> {
                    &&& (#[trigger] out@[2 * j]).id == constraints@[j].a
                    &&& out@[2 * j + 1].id == constraints@[j].b
                }
            &&& forall|k: int|
                0 <= k < out@.len() ==> (#[trigger] out@[k]).eval == eval_multilinear(
                    witness_index.spec_get(out@[k].id as int).unwrap(),
                    out@[k].eval_point@,
                )
            &&& forall|k: int, k2: int|
                0 <= k < out@.len() && 0 <= k2 < out@.len() ==> (#[trigger] out@[k]).eval_point@
                    == (#[trigger] out@[k2]).eval_point@
            &&& forall|k: int|
                0 <= k < out@.len() ==> (#[trigger] out@[k]).eval_point@.len()
                    == constraints@[0].eq_point@.len()
        },
        r is Ok && constraints@.len() > 0 ==> ({
            let tr = rounds_trace(
                *witness_index,
                constraints@,
                old(transcript).state,
                constraints@[0].eq_point@.len() as nat,
                constraints@[0].eq_point@.len() as nat,
            );
            &&& final(transcript).bytes@ == old(transcript).bytes@ + tr.2
            &&& final(transcript).state == tr.0
            &&& (r matches Ok(out) ==> forall|k: int|
                0 <= k < out@.len() ==> (#[trigger] out@[k]).eval_point@ == tr.1)
            &&& (r matches Ok(out) ==> claims_view(out@) == out_views(
                *witness_index,
                queue_view(constraints@),
                tr.1,
            ))
        }),
        r is Ok && constraints@.len() == 0 ==> final(transcript).bytes@ == old(
            transcript,
        ).bytes@ && final(transcript).state == old(transcript).state,
        r is Err ==> final(transcript).bytes@ == old(transcript).bytes@
            && final(transcript).state == old(transcript).state,
{
    let ghost w = *witness_index;
    if constraints.len() == 0 {
        return Ok(Vec::new());
    }
    let n_vars: usize = constraints[0].eq_point.len();
    let ghost entry_state = old(transcript).state;
    let ghost entry_bytes = old(transcript).bytes@;
    proof {
        lemma_pow2_bounds(n_vars as nat);
    }
    let mut states: Vec<(SumcheckMultilinear, SumcheckMultilinear, SumcheckMultilinear)> =
        Vec::new();
    let mut j: usize = 0;
    while j < constraints.len()
        invariant
            j <= constraints@.len(),
            n_vars == constraints@[0].eq_point@.len(),
            n_vars <= MAX_VARS,
            w == *witness_index,
            forall|t: int|
                0 <= t < constraints@.len() ==> sc_input_ok(w, #[trigger] constraints@[t]),
            forall|x: usize| #[trigger] switchover_fn.requires((x,)),
            memoized_data.wf(),
            states@.len() == j,
            forall|t: int|
                0 <= t < j ==> {
                    &&& tracks(
                        (#[trigger] states@[t]).0,
                        eq_expand_spec(constraints@[t].eq_point@),
                        n_vars as nat,
                        n_vars as nat,
                        Seq::<u16>::empty(),
                    )
                    &&& tracks(
                        states@[t].1,
                        w.spec_get(constraints@[t].a as int).unwrap(),
                        n_vars as nat,
                        n_vars as nat,
                        Seq::<u16>::empty(),
                    )
                    &&& tracks(
                        states@[t].2,
                        w.spec_get(constraints@[t].b as int).unwrap(),
                        n_vars as nat,
                        n_vars as nat,
                        Seq::<u16>::empty(),
                    )
                },
            forall|t: int|
                0 <= t < j ==> (#[trigger] constraints@[t].eq_point@).len() == n_vars,
        decreases constraints@.len() - j,
    {
        let cref = &constraints[j];
        if cref.eq_point.len() != n_vars {
            return Err(Error::MalformedClaim { oracle_id: cref.a });
        }
        let eq_table = memoized_data.eq_expansion(&cref.eq_point);
        proof {
            crate::multilinear::lemma_eq_expand_len(cref.eq_point@);
            lemma_pow2_bounds(n_vars as nat);
        }
        let packed_eq = pack_scalars(&eq_table, 0u16);
        proof {
            assert(4 * packed_eq@.len() <= pow2(n_vars as nat) + 3);
        }
        let eq_rep = SumcheckMultilinear::folded(packed_eq);
        proof {
            assert(eq_rep.spec_current_scalars(n_vars as nat, Seq::<u16>::empty()) =~= eq_table@);
            assert(fold_multi(eq_expand_spec(cref.eq_point@), Seq::<u16>::empty())
                == eq_expand_spec(cref.eq_point@));
        }
        let a_poly = MultilinPoly::new(copy_scalars(witness_index.get(cref.a)), n_vars, 0);
        let a_rep = SumcheckMultilinear::transparent(a_poly, switchover_fn);
        let b_poly = MultilinPoly::new(copy_scalars(witness_index.get(cref.b)), n_vars, 0);
        let b_rep = SumcheckMultilinear::transparent(b_poly, switchover_fn);
        states.push((eq_rep, a_rep, b_rep));
        j = j + 1;
    }
    let mut challenges: Vec<u16> = Vec::new();
    let mut rem: usize = n_vars;
    proof {
        assert(fold_multi(eq_expand_spec(constraints@[0].eq_point@), Seq::<u16>::empty())
            == eq_expand_spec(constraints@[0].eq_point@));
        assert(transcript.state == entry_state && transcript.bytes@ == entry_bytes);
        assert(transcript.bytes@ =~= entry_bytes + Seq::<u8>::empty());
        assert(challenges@ =~= Seq::<u16>::empty());
    }
    while rem > 0
        invariant
            rem <= n_vars,
            n_vars <= MAX_VARS,
            w == *witness_index,
            constraints@.len() > 0,
            challenges@.len() + rem == n_vars,
            ({
                let tr = rounds_trace(
                    w,
                    constraints@,
                    entry_state,
                    n_vars as nat,
                    (n_vars - rem) as nat,
                );
                &&& transcript.state == tr.0
                &&& challenges@ == tr.1
                &&& transcript.bytes@ == entry_bytes + tr.2
            }),
            forall|x: usize| #[trigger] switchover_fn.requires((x,)),
            memoized_data.wf(),
            states@.len() == constraints@.len(),
            forall|t: int|
                0 <= t < states@.len() ==> {
                    &&& tracks(
                        (#[trigger] states@[t]).0,
                        eq_expand_spec(constraints@[t].eq_point@),
                        n_vars as nat,
                        rem as nat,
                        challenges@,
                    )
                    &&& tracks(
                        states@[t].1,
                        w.spec_get(constraints@[t].a as int).unwrap(),
                        n_vars as nat,
                        rem as nat,
                        challenges@,
                    )
                    &&& tracks(
                        states@[t].2,
                        w.spec_get(constraints@[t].b as int).unwrap(),
                        n_vars as nat,
                        rem as nat,
                        challenges@,
                    )
                },
        decreases rem,
    {
        let ghost tr_prev = rounds_trace(
            w,
            constraints@,
            entry_state,
            n_vars as nat,
            (n_vars - rem) as nat,
        );
        proof {
            assert(pass_bytes(w, constraints@, challenges@, rem as nat, 0) == Seq::<u8>::empty());
            assert(mix_seq_spec(tr_prev.0, Seq::<u8>::empty()) == tr_prev.0);
            assert(transcript.bytes@ =~= entry_bytes + tr_prev.2 + Seq::<u8>::empty());
        }
        let mut j2: usize = 0;
        while j2 < states.len()
            invariant
                j2 <= states@.len(),
                1 <= rem <= n_vars,
                n_vars <= MAX_VARS,
                w == *witness_index,
                challenges@.len() + rem == n_vars,
                states@.len() == constraints@.len(),
                tr_prev == rounds_trace(
                    w,
                    constraints@,
                    entry_state,
                    n_vars as nat,
                    (n_vars - rem) as nat,
                ),
                challenges@ == tr_prev.1,
                transcript.state == mix_seq_spec(
                    tr_prev.0,
                    pass_bytes(w, constraints@, challenges@, rem as nat, j2 as int),
                ),
                transcript.bytes@ == entry_bytes + tr_prev.2 + pass_bytes(
                    w,
                    constraints@,
                    challenges@,
                    rem as nat,
                    j2 as int,
                ),
                forall|t: int|
                    0 <= t < states@.len() ==> {
                        &&& tracks(
                            (#[trigger] states@[t]).0,
                            eq_expand_spec(constraints@[t].eq_point@),
                            n_vars as nat,
                            rem as nat,
                            challenges@,
                        )
                        &&& tracks(
                            states@[t].1,
                            w.spec_get(constraints@[t].a as int).unwrap(),
                            n_vars as nat,
                            rem as nat,
                            challenges@,
                        )
                        &&& tracks(
                            states@[t].2,
                            w.spec_get(constraints@[t].b as int).unwrap(),
                            n_vars as nat,
                            rem as nat,
                            challenges@,
                        )
                    },
            decreases states@.len() - j2,
        {
            proof {
                lemma_pow2_bounds(rem as nat);
                assert(pow2(rem as nat) == 2 * pow2((rem - 1) as nat));
            }
            let cur_eq = {
                let st = &states[j2];
                st.0.current_scalars(rem, &challenges)
            };
            let cur_a = {
                let st = &states[j2];
                st.1.current_scalars(rem, &challenges)
            };
            let cur_b = {
                let st = &states[j2];
                st.2.current_scalars(rem, &challenges)
            };
            proof {
                let st = states@[j2 as int];
                lemma_tracks_current(
                    st.0,
                    eq_expand_spec(constraints@[j2 as int].eq_point@),
                    n_vars as nat,
                    rem as nat,
                    challenges@,
                );
                lemma_tracks_current(
                    st.1,
                    w.spec_get(constraints@[j2 as int].a as int).unwrap(),
                    n_vars as nat,
                    rem as nat,
                    challenges@,
                );
                lemma_tracks_current(
                    st.2,
                    w.spec_get(constraints@[j2 as int].b as int).unwrap(),
                    n_vars as nat,
                    rem as nat,
                    challenges@,
                );
            }
            let co = round_coeffs(&cur_eq, &cur_a, &cur_b);
            let ghost pb_j = pass_bytes(w, constraints@, challenges@, rem as nat, j2 as int);
            let ghost rm = round_message(w, constraints@[j2 as int], challenges@, rem as nat);
            let ghost st_in = transcript.state;
            let ghost bs_in = transcript.bytes@;
            transcript.write_scalar(co.0);
            transcript.write_scalar(co.1);
            transcript.write_scalar(co.2);
            transcript.write_scalar(co.3);
            proof {
                lemma_mix_seq_append(tr_prev.0, pb_j, scalar_bytes(co.0));
                lemma_mix_seq_append(tr_prev.0, pb_j + scalar_bytes(co.0), scalar_bytes(co.1));
                lemma_mix_seq_append(
                    tr_prev.0,
                    pb_j + scalar_bytes(co.0) + scalar_bytes(co.1),
                    scalar_bytes(co.2),
                );
                lemma_mix_seq_append(
                    tr_prev.0,
                    pb_j + scalar_bytes(co.0) + scalar_bytes(co.1) + scalar_bytes(co.2),
                    scalar_bytes(co.3),
                );
                assert(rm == scalar_bytes(co.0) + scalar_bytes(co.1) + scalar_bytes(co.2)
                    + scalar_bytes(co.3));
                assert(pass_bytes(w, constraints@, challenges@, rem as nat, j2 + 1) == pb_j + rm);
                assert(pb_j + scalar_bytes(co.0) + scalar_bytes(co.1) + scalar_bytes(co.2)
                    + scalar_bytes(co.3) =~= pb_j + rm);
                assert(transcript.state == mix_seq_spec(tr_prev.0, pb_j + rm));
                assert(transcript.bytes@ =~= entry_bytes + tr_prev.2 + (pb_j + rm));
            }
            j2 = j2 + 1;
        }
        proof {
            assert(pass_bytes(w, constraints@, challenges@, rem as nat, states@.len() as int)
                == pass_bytes(
                w,
                constraints@,
                challenges@,
                rem as nat,
                constraints@.len() as int,
            ));
        }
        let c = transcript.sample();
        let ghost cs_old = challenges@;
        let mut j3: usize = 0;
        while j3 < states.len()
            invariant
                j3 <= states@.len(),
                1 <= rem <= n_vars,
                n_vars <= MAX_VARS,
                cs_old == challenges@,
                challenges@.len() + rem == n_vars,
                states@.len() == constraints@.len(),
                forall|t: int|
                    j3 <= t < states@.len() ==> {
                        &&& tracks(
                            (#[trigger] states@[t]).0,
                            eq_expand_spec(constraints@[t].eq_point@),
                            n_vars as nat,
                            rem as nat,
                            cs_old,
                        )
                        &&& tracks(
                            states@[t].1,
                            w.spec_get(constraints@[t].a as int).unwrap(),
                            n_vars as nat,
                            rem as nat,
                            cs_old,
                        )
                        &&& tracks(
                            states@[t].2,
                            w.spec_get(constraints@[t].b as int).unwrap(),
                            n_vars as nat,
                            rem as nat,
                            cs_old,
                        )
                    },
                forall|t: int|
                    0 <= t < j3 ==> {
                        &&& tracks(
                            (#[trigger] states@[t]).0,
                            eq_expand_spec(constraints@[t].eq_point@),
                            n_vars as nat,
                            (rem - 1) as nat,
                            cs_old.push(c),
                        )
                        &&& tracks(
                            states@[t].1,
                            w.spec_get(constraints@[t].a as int).unwrap(),
                            n_vars as nat,
                            (rem - 1) as nat,
                            cs_old.push(c),
                        )
                        &&& tracks(
                            states@[t].2,
                            w.spec_get(constraints@[t].b as int).unwrap(),
                            n_vars as nat,
                            (rem - 1) as nat,
                            cs_old.push(c),
                        )
                    },
            decreases states@.len() - j3,
        {
            let st = vstd::std_specs::vec::vec_index_mut(&mut states, j3);
            fold_rep(
                &mut st.0,
                n_vars,
                rem,
                &challenges,
                c,
                Ghost(eq_expand_spec(constraints@[j3 as int].eq_point@)),
            );
            fold_rep(
                &mut st.1,
                n_vars,
                rem,
                &challenges,
                c,
                Ghost(w.spec_get(constraints@[j3 as int].a as int).unwrap()),
            );
            fold_rep(
                &mut st.2,
                n_vars,
                rem,
                &challenges,
                c,
                Ghost(w.spec_get(constraints@[j3 as int].b as int).unwrap()),
            );
            j3 = j3 + 1;
        }
        challenges.push(c);
        proof {
            let k1 = (n_vars - rem + 1) as nat;
            let tr_next = rounds_trace(w, constraints@, entry_state, n_vars as nat, k1);
            let pb = pass_bytes(w, constraints@, cs_old, rem as nat, constraints@.len() as int);
            assert(tr_next.0 == advance_spec(mix_seq_spec(tr_prev.0, pb)));
            assert(tr_next.1 == tr_prev.1.push(challenge_of(mix_seq_spec(tr_prev.0, pb))));
            assert(tr_next.2 == tr_prev.2 + pb);
            assert(transcript.bytes@ =~= entry_bytes + (tr_prev.2 + pb));
            assert(challenges@ == tr_next.1);
        }
        rem = rem - 1;
    }
    let ghost tr_full = rounds_trace(w, constraints@, entry_state, n_vars as nat, n_vars as nat);
    let mut out: Vec<EvalcheckMultilinearClaim> = Vec::new();
    let mut j4: usize = 0;
    while j4 < states.len()
        invariant
            j4 <= states@.len(),
            n_vars <= MAX_VARS,
            w == *witness_index,
            transcript.state == tr_full.0,
            transcript.bytes@ == entry_bytes + tr_full.2,
            challenges@ == tr_full.1,
            tr_full == rounds_trace(w, constraints@, entry_state, n_vars as nat, n_vars as nat),
            challenges@.len() == n_vars,
            states@.len() == constraints@.len(),
            out@.len() == 2 * j4,
            forall|t: int|
                0 <= t < states@.len() ==> {
                    &&& tracks(
                        (#[trigger] states@[t]).0,
                        eq_expand_spec(constraints@[t].eq_point@),
                        n_vars as nat,
                        0,
                        challenges@,
                    )
                    &&& tracks(
                        states@[t].1,
                        w.spec_get(constraints@[t].a as int).unwrap(),
                        n_vars as nat,
                        0,
                        challenges@,
                    )
                    &&& tracks(
                        states@[t].2,
                        w.spec_get(constraints@[t].b as int).unwrap(),
                        n_vars as nat,
                        0,
                        challenges@,
                    )
                },
            forall|t: int|
                0 <= t < j4 ==> {
                    &&& (#[trigger] out@[2 * t]).id == constraints@[t].a
                    &&& out@[2 * t + 1].id == constraints@[t].b
                    &&& out@[2 * t].eval_point@ == challenges@
                    &&& out@[2 * t + 1].eval_point@ == challenges@
                    &&& out@[2 * t].eval == eval_multilinear(
                        w.spec_get(constraints@[t].a as int).unwrap(),
                        challenges@,
                    )
                    &&& out@[2 * t + 1].eval == eval_multilinear(
                        w.spec_get(constraints@[t].b as int).unwrap(),
                        challenges@,
                    )
                },
        decreases states@.len() - j4,
    {
        let a_id = constraints[j4].a;
        let b_id = constraints[j4].b;
        let af = {
            let st = &states[j4];
            let table = st.1.current_scalars(0, &challenges);
            proof {
                lemma_tracks_current(
                    st.1,
                    w.spec_get(a_id as int).unwrap(),
                    n_vars as nat,
                    0,
                    challenges@,
                );
            }
            table[0]
        };
        let bf = {
            let st = &states[j4];
            let table = st.2.current_scalars(0, &challenges);
            proof {
                lemma_tracks_current(
                    st.2,
                    w.spec_get(b_id as int).unwrap(),
                    n_vars as nat,
                    0,
                    challenges@,
                );
            }
            table[0]
        };
        let ghost prev_out = out@;
        out.push(
            EvalcheckMultilinearClaim { id: a_id, eval_point: copy_scalars(&challenges), eval: af },
        );
        out.push(
            EvalcheckMultilinearClaim { id: b_id, eval_point: copy_scalars(&challenges), eval: bf },
        );
        proof {
            assert forall|t: int| 0 <= t < j4 + 1 implies {
                &&& (#[trigger] out@[2 * t]).id == constraints@[t].a
                &&& out@[2 * t + 1].id == constraints@[t].b
                &&& out@[2 * t].eval_point@ == challenges@
                &&& out@[2 * t + 1].eval_point@ == challenges@
                &&& out@[2 * t].eval == eval_multilinear(
                    w.spec_get(constraints@[t].a as int).unwrap(),
                    challenges@,
                )
                &&& out@[2 * t + 1].eval == eval_multilinear(
                    w.spec_get(constraints@[t].b as int).unwrap(),
                    challenges@,
                )
            } by {
                if t < j4 {
                    assert(out@[2 * t] == prev_out[2 * t]);
                    assert(out@[2 * t + 1] == prev_out[2 * t + 1]);
                } else {
                    assert(out@[2 * t] == prev_out.push(
                        EvalcheckMultilinearClaim {
                            id: a_id,
                            eval_point: out@[2 * t].eval_point,
                            eval: af,
                        },
                    )[2 * t]);
                }
            }
        }
        j4 = j4 + 1;
    }
    proof {
        assert forall|k: int|
            0 <= k < out@.len() implies (#[trigger] out@[k]).eval == eval_multilinear(
            w.spec_get(out@[k].id as int).unwrap(),
            out@[k].eval_point@,
        ) && out@[k].eval_point@ == challenges@ by {
            let t = k / 2;
            assert(k == 2 * t || k == 2 * t + 1);
            assert(out@[2 * t].id == constraints@[t].a);
        }
        lemma_rounds_trace_views(w, constraints@, entry_state, n_vars as nat, n_vars as nat);
        assert forall|k: int|
            0 <= k < out@.len() implies claims_view(out@)[k] == out_views(
            w,
            queue_view(constraints@),
            tr_full.1,
        )[k] by {
            let t = k / 2;
            assert(k == 2 * t || k == 2 * t + 1);
            assert(out@[2 * t].id == constraints@[t].a);
            assert(out@[2 * t + 1].id == constraints@[t].b);
            assert(queue_view(constraints@)[t] == crate::evalcheck::constraint_view(
                constraints@[t],
            ));
        }
        assert(claims_view(out@) =~= out_views(w, queue_view(constraints@), tr_full.1));
    }
    Ok(out)
}

} // verus!
