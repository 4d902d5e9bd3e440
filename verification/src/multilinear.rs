//! The per-round multilinear representation used inside a sumcheck instance.
//!
//! An individual multilinear starts *Transparent* — the unfolded small-field
//! polynomial plus the round at which it must convert — and becomes *Folded*
//! — an explicit packed evaluation vector, halved each round — exactly at its
//! switchover round. A trailing run of constant scalars is carried as a
//! `(value, length)` descriptor instead of materialized lanes.

use vstd::prelude::*;

use crate::field::{fe_mul, fe_mul_spec, lemma_fe_mul_rec_zero, lemma_xor_self};
use crate::packed::{padded_get, padded_read, PackedElem};
use crate::util::{lemma_pow2_bounds, lemma_pow2_le, lemma_pow2_pos, pow2, pow2_exec, MAX_VARS};

verus! {

/// An unfolded multilinear polynomial: explicit evaluations over the boolean
/// hypercube, lowest variable in the lowest index bit.
#[derive(Clone, Debug)]
pub struct MultilinPoly {
    pub evals: Vec<u16>,
    pub n_vars: usize,
    pub log_extension_degree: usize,
}

impl MultilinPoly {
    /// Shape constraints: a full hypercube of evaluations, sizes inside the
    /// machine limits.
    pub open spec fn wf(self) -> bool {
        &&& self.n_vars <= MAX_VARS
        &&& self.evals@.len() == pow2(self.n_vars as nat)
        &&& self.log_extension_degree <= 7
    }

    /// Build an unfolded multilinear.
    pub fn new(evals: Vec<u16>, n_vars: usize, log_extension_degree: usize) -> (r: Self)
        requires
            n_vars <= MAX_VARS,
            evals@.len() == pow2(n_vars as nat),
            log_extension_degree <= 7,
        ensures
            r.wf(),
            r.evals@ == evals@,
            r.n_vars == n_vars,
            r.log_extension_degree == log_extension_degree,
    {
        MultilinPoly { evals, n_vars, log_extension_degree }
    }
}

/// An individual multilinear polynomial in a multivariate composite.
#[derive(Debug)]
pub enum SumcheckMultilinear {
    /// Small-field multilinear — to be folded into the large field at the
    /// `switchover_round`. A suffix of constant scalars at the end is
    /// provided via the `const_suffix` hint.
    Transparent {
        multilinear: MultilinPoly,
        switchover_round: usize,
        const_suffix: (u16, usize),
    },
    /// Large-field multilinear — halved in size each round. If its length is
    /// less than the one the current round expects, it is padded with
    /// `suffix_eval` scalars.
    Folded {
        large_field_folded_evals: Vec<PackedElem>,
        suffix_eval: u16,
    },
}

impl SumcheckMultilinear {
    /// Whether the polynomial has not yet switched to its folded shape.
    pub open spec fn is_transparent(self) -> bool {
        match self {
            SumcheckMultilinear::Transparent { .. } => true,
            SumcheckMultilinear::Folded { .. } => false,
        }
    }

    /// The unfolded polynomial of a Transparent value.
    pub open spec fn unfolded(self) -> MultilinPoly {
        match self {
            SumcheckMultilinear::Transparent { multilinear, .. } => multilinear,
            SumcheckMultilinear::Folded { .. } => arbitrary(),
        }
    }

    /// The switchover round of a Transparent value.
    pub open spec fn switchover(self) -> usize {
        match self {
            SumcheckMultilinear::Transparent { switchover_round, .. } => switchover_round,
            SumcheckMultilinear::Folded { .. } => arbitrary(),
        }
    }

    /// The constant-suffix hint of a Transparent value.
    pub open spec fn hint(self) -> (u16, usize) {
        match self {
            SumcheckMultilinear::Transparent { const_suffix, .. } => const_suffix,
            SumcheckMultilinear::Folded { .. } => arbitrary(),
        }
    }

    /// The stored packed evaluations of a Folded value.
    pub open spec fn stored(self) -> Seq<PackedElem> {
        match self {
            SumcheckMultilinear::Transparent { .. } => arbitrary(),
            SumcheckMultilinear::Folded { large_field_folded_evals, .. } =>
                large_field_folded_evals@,
        }
    }

    /// The padding scalar of a Folded value.
    pub open spec fn suffix_scalar(self) -> u16 {
        match self {
            SumcheckMultilinear::Transparent { .. } => arbitrary(),
            SumcheckMultilinear::Folded { suffix_eval, .. } => suffix_eval,
        }
    }

    /// Shape constraints of either variant.
    pub open spec fn wf(self) -> bool {
        match self {
            SumcheckMultilinear::Transparent { multilinear, switchover_round, const_suffix } => {
                &&& multilinear.wf()
                &&& const_suffix.1 <= pow2(multilinear.n_vars as nat)
            },
            SumcheckMultilinear::Folded { large_field_folded_evals, .. } =>
                large_field_folded_evals@.len() <= 0x400000,
        }
    }

    /// The constant-suffix descriptor at `n_vars` bound variables: for a
    /// Folded value the length is derived from the stored length, never
    /// tracked separately.
    pub open spec fn spec_const_suffix(self, n_vars: nat) -> (u16, int) {
        match self {
            SumcheckMultilinear::Transparent { const_suffix, .. } =>
                (const_suffix.0, const_suffix.1 as int),
            SumcheckMultilinear::Folded { large_field_folded_evals, suffix_eval } => {
                let stored = 4 * large_field_folded_evals@.len();
                (suffix_eval, if pow2(n_vars) >= stored {
                    pow2(n_vars) - stored
                } else {
                    0
                })
            },
        }
    }

    /// Construct a Transparent instance; the switchover round is the policy
    /// applied to the polynomial's extension degree over the working field.
    pub fn transparent<F: Fn(usize) -> usize>(multilinear: MultilinPoly, switchover_fn: &F) -> (r:
        Self)
        requires
            multilinear.wf(),
            switchover_fn.requires((1usize << multilinear.log_extension_degree,)),
        ensures
            r.wf(),
            r.is_transparent(),
            r.unfolded() == multilinear,
            r.hint() == (0u16, 0usize),
            switchover_fn.ensures(
                (1usize << multilinear.log_extension_degree,),
                r.switchover(),
            ),
    {
        let switchover_round = switchover_fn(1usize << multilinear.log_extension_degree);

        SumcheckMultilinear::Transparent {
            multilinear,
            switchover_round,
            const_suffix: (0u16, 0usize),
        }
    }

    /// Construct a Folded instance with a zero-length suffix.
    pub fn folded(large_field_folded_evals: Vec<PackedElem>) -> (r: Self)
        requires
            large_field_folded_evals@.len() <= 0x400000,
        ensures
            r.wf(),
            !r.is_transparent(),
            r.stored() == large_field_folded_evals@,
            r.suffix_scalar() == 0u16,
    {
        SumcheckMultilinear::Folded { large_field_folded_evals, suffix_eval: 0u16 }
    }

    /// The constant tail descriptor at `n_vars` bound variables.
    pub fn const_suffix(&self, n_vars: usize) -> (r: (u16, usize))
        requires
            self.wf(),
            n_vars <= MAX_VARS,
        ensures
            r.0 == self.spec_const_suffix(n_vars as nat).0,
            r.1 as int == self.spec_const_suffix(n_vars as nat).1,
    {
        match self {
            SumcheckMultilinear::Transparent { const_suffix, .. } => *const_suffix,
            SumcheckMultilinear::Folded { large_field_folded_evals, suffix_eval } => {
                let total = pow2_exec(n_vars);
                let stored = large_field_folded_evals.len() * 4;
                (*suffix_eval, if total >= stored {
                    total - stored
                } else {
                    0
                })
            },
        }
    }

    /// Install a new constant-suffix descriptor. A Transparent value only
    /// overwrites its hint; a Folded value truncates its stored evaluations
    /// to the lanes the new suffix leaves uncovered, rounded up to a whole
    /// packed element.
    pub fn update_const_suffix(&mut self, n_vars: usize, new_const_suffix: (u16, usize))
        requires
            old(self).wf(),
            n_vars <= MAX_VARS,
            new_const_suffix.1 <= pow2(n_vars as nat),
            old(self).is_transparent() ==> n_vars <= old(self).unfolded().n_vars,
        ensures
            final(self).wf(),
            final(self).is_transparent() == old(self).is_transparent(),
            old(self).is_transparent() ==> {
                &&& final(self).unfolded() == old(self).unfolded()
                &&& final(self).switchover() == old(self).switchover()
                &&& final(self).hint() == new_const_suffix
            },
            !old(self).is_transparent() ==> {
                let keep = (pow2(n_vars as nat) - new_const_suffix.1 + 3) / 4;
                &&& final(self).suffix_scalar() == new_const_suffix.0
                &&& final(self).stored() == (if keep < old(self).stored().len() {
                    old(self).stored().subrange(0, keep)
                } else {
                    old(self).stored()
                })
                &&& keep <= old(self).stored().len() ==> final(self).stored().len() == keep
            },
    {
        match self {
            SumcheckMultilinear::Transparent { const_suffix, .. } => {
                proof {
                    lemma_pow2_le(n_vars as nat, old(self).unfolded().n_vars as nat);
                }
                *const_suffix = new_const_suffix;
            },
            SumcheckMultilinear::Folded { large_field_folded_evals, suffix_eval } => {
                let (new_suffix_eval, new_suffix_len) = new_const_suffix;
                *suffix_eval = new_suffix_eval;
                let total = pow2_exec(n_vars);
                let keep = (total - new_suffix_len + 3) / 4;
                large_field_folded_evals.truncate(keep);
            },
        }
    }
}

/// Suffix monotonicity of folding: a constant tail never fragments. One
/// fold halves the domain, and at least half of a constant run survives it,
/// so the run shrinks no faster than the domain — relative to the halved
/// domain the constant suffix only grows or stays.
pub proof fn lemma_suffix_monotonic(s: Seq<u16>, c: u16)
    requires
        s.len() >= 2,
        s.len() % 2 == 0,
    ensures
        const_run(fold_seq(s, c)) >= const_run(s) / 2,
{
    let l = const_run(s);
    let v = s[s.len() - 1];
    lemma_const_run_sound(s);
    lemma_fold_preserves_suffix(s, c, v, l);
    let f = fold_seq(s, c);
    assert(f.len() == s.len() / 2);
    if l / 2 >= 1 {
        assert(f[f.len() - 1] == v);
        assert forall|j: int| f.len() - l / 2 <= j < f.len() implies #[trigger] f[j] == f[f.len()
            - 1] by {
            assert(f[j] == v);
        }
        lemma_const_run_at_least(f, l / 2);
    } else {
        lemma_const_run_sound(f);
    }
}

/// Folding two adjacent evaluations at challenge `c` interpolates the line
/// through them: `e0 + c * (e1 - e0)` in the binary field.
pub open spec fn fold_pair(e0: u16, e1: u16, c: u16) -> u16 {
    e0 ^ fe_mul_spec(c, e0 ^ e1)
}

/// One sumcheck round: every adjacent pair folded at challenge `c`, halving
/// the domain.
pub open spec fn fold_seq(s: Seq<u16>, c: u16) -> Seq<u16> {
    Seq::new((s.len() / 2) as nat, |i: int| fold_pair(s[2 * i], s[2 * i + 1], c))
}

/// A whole sequence of rounds, challenges applied first to last.
pub open spec fn fold_multi(s: Seq<u16>, cs: Seq<u16>) -> Seq<u16>
    decreases cs.len(),
{
    if cs.len() == 0 {
        s
    } else {
        fold_multi(fold_seq(s, cs[0]), cs.drop_first())
    }
}

/// The multilinear extension of the evaluation table `s` at `point`.
pub open spec fn eval_multilinear(s: Seq<u16>, point: Seq<u16>) -> u16 {
    fold_multi(s, point)[0]
}

/// Length of the longest constant run at the end of `s`.
pub open spec fn const_run(s: Seq<u16>) -> int
    decreases s.len(),
{
    if s.len() <= 1 {
        s.len() as int
    } else if s[s.len() - 2] == s[s.len() - 1] {
        1 + const_run(s.drop_last())
    } else {
        1
    }
}

/// Every element of the longest trailing run equals the last element.
pub proof fn lemma_const_run_sound(s: Seq<u16>)
    requires
        s.len() >= 1,
    ensures
        1 <= const_run(s) <= s.len(),
        forall|j: int| s.len() - const_run(s) <= j < s.len() ==> #[trigger] s[j] == s[s.len() - 1],
    decreases s.len(),
{
    if s.len() > 1 && s[s.len() - 2] == s[s.len() - 1] {
        lemma_const_run_sound(s.drop_last());
        assert forall|j: int| s.len() - const_run(s) <= j < s.len() implies #[trigger] s[j]
            == s[s.len() - 1] by {
            if j < s.len() - 2 {
                assert(s.drop_last()[j] == s[j]);
                assert(s.drop_last()[s.len() - 2] == s[s.len() - 2]);
            }
        }
    }
}

/// A trailing run of `k` copies of the last element bounds the longest run
/// from below.
pub proof fn lemma_const_run_at_least(s: Seq<u16>, k: int)
    requires
        1 <= k <= s.len(),
        forall|j: int| s.len() - k <= j < s.len() ==> #[trigger] s[j] == s[s.len() - 1],
    ensures
        const_run(s) >= k,
    decreases s.len(),
{
    lemma_const_run_sound(s);
    if k > 1 {
        assert(s[s.len() - 2] == s[s.len() - 1]);
        assert forall|j: int|
            s.drop_last().len() - (k - 1) <= j < s.drop_last().len() implies #[trigger] s.drop_last()[j] == s.drop_last()[s.drop_last().len() - 1] by {
            assert(s.drop_last()[j] == s[j]);
        }
        lemma_const_run_at_least(s.drop_last(), k - 1);
        assert(const_run(s) == 1 + const_run(s.drop_last()));
    }
}

/// Folding a pair of equal values returns the value: the line through
/// `(v, v)` is constant.
pub proof fn lemma_fold_pair_const(v: u16, c: u16)
    ensures
        fold_pair(v, v, c) == v,
{
    lemma_xor_self(v);
    lemma_fe_mul_rec_zero(c, 16);
    assert(fe_mul_spec(c, 0) == 0);
    lemma_xor_self(v);
    assert(v ^ 0 == v);
}

/// A constant tail survives a fold: if the last `l` entries of `s` are `v`,
/// at least the last `l / 2` entries of the folded sequence are `v` again. A
/// fold merges adjacent assignments, so a constant run can shrink only by
/// the halving of the domain — it never fragments.
pub proof fn lemma_fold_preserves_suffix(s: Seq<u16>, c: u16, v: u16, l: int)
    requires
        s.len() % 2 == 0,
        0 <= l <= s.len(),
        forall|j: int| s.len() - l <= j < s.len() ==> #[trigger] s[j] == v,
    ensures
        forall|i: int|
            s.len() / 2 - l / 2 <= i < s.len() / 2 ==> #[trigger] fold_seq(s, c)[i] == v,
{
    assert forall|i: int| s.len() / 2 - l / 2 <= i < s.len() / 2 implies fold_seq(s, c)[i]
        == v by {
        assert(2 * (l / 2) <= l);
        assert(2 * (s.len() / 2) == s.len());
        assert(2 * i >= s.len() - l);
        assert(s[2 * i] == v);
        assert(s[2 * i + 1] == v);
        lemma_fold_pair_const(v, c);
    }
}

/// Each fold of a full evaluation table halves its length.
pub proof fn lemma_fold_multi_len(s: Seq<u16>, cs: Seq<u16>, n: nat)
    requires
        s.len() == pow2(n),
        cs.len() <= n,
    ensures
        fold_multi(s, cs).len() == pow2((n - cs.len()) as nat),
    decreases cs.len(),
{
    if cs.len() == 0 {
    } else {
        lemma_pow2_pos((n - 1) as nat);
        assert(fold_seq(s, cs[0]).len() == pow2((n - 1) as nat));
        lemma_fold_multi_len(fold_seq(s, cs[0]), cs.drop_first(), (n - 1) as nat);
    }
}

/// Appending one more challenge folds the already-folded table once more.
pub proof fn lemma_fold_multi_snoc(s: Seq<u16>, cs: Seq<u16>, c: u16)
    ensures
        fold_multi(s, cs.push(c)) == fold_seq(fold_multi(s, cs), c),
    decreases cs.len(),
{
    if cs.len() == 0 {
        assert(cs.push(c)[0] == c);
        assert(cs.push(c).drop_first() =~= Seq::<u16>::empty());
        assert(fold_multi(s, cs.push(c)) == fold_multi(fold_seq(s, c), cs.push(c).drop_first()));
        assert(fold_multi(fold_seq(s, c), Seq::<u16>::empty()) == fold_seq(s, c));
        assert(fold_multi(s, cs) == s);
    } else {
        let s1 = fold_seq(s, cs[0]);
        assert(cs.push(c)[0] == cs[0]);
        assert(cs.push(c).drop_first() =~= cs.drop_first().push(c));
        assert(fold_multi(s, cs.push(c)) == fold_multi(s1, cs.push(c).drop_first()));
        lemma_fold_multi_snoc(s1, cs.drop_first(), c);
        assert(fold_multi(s, cs) == fold_multi(s1, cs.drop_first()));
    }
}

/// One sumcheck round on a scalar table.
pub fn fold_scalars(v: &Vec<u16>, c: u16) -> (r: Vec<u16>)
    ensures
        r@ == fold_seq(v@, c),
{
    let half: usize = v.len() / 2;
    let mut out: Vec<u16> = Vec::new();
    let mut i: usize = 0;
    while i < half
        invariant
            i <= half,
            half == v@.len() / 2,
            v@.len() <= usize::MAX,
            out@.len() == i,
            forall|j: int| 0 <= j < i ==> out@[j] == fold_pair(v@[2 * j], v@[2 * j + 1], c),
        decreases half - i,
    {
        proof {
            assert(2 * i + 1 < v@.len());
        }
        let e0 = v[2 * i];
        let e1 = v[2 * i + 1];
        out.push(e0 ^ fe_mul(c, e0 ^ e1));
        i = i + 1;
    }
    proof {
        assert(out@ =~= fold_seq(v@, c));
    }
    out
}

/// All rounds at once: fold `v` by each challenge in order.
pub fn fold_scalars_multi(v: &Vec<u16>, cs: &Vec<u16>) -> (r: Vec<u16>)
    ensures
        r@ == fold_multi(v@, cs@),
{
    let mut cur: Vec<u16> = Vec::new();
    let mut i: usize = 0;
    while i < v.len()
        invariant
            i <= v@.len(),
            cur@ =~= v@.subrange(0, i as int),
        decreases v@.len() - i,
    {
        cur.push(v[i]);
        i = i + 1;
    }
    proof {
        assert(cur@ =~= v@);
        assert(fold_multi(v@, cs@.subrange(0, 0)) == v@);
    }
    let mut k: usize = 0;
    while k < cs.len()
        invariant
            k <= cs@.len(),
            cur@ == fold_multi(v@, cs@.subrange(0, k as int)),
        decreases cs@.len() - k,
    {
        cur = fold_scalars(&cur, cs[k]);
        proof {
            assert(cs@.subrange(0, k + 1) =~= cs@.subrange(0, k as int).push(cs@[k as int]));
            lemma_fold_multi_snoc(v@, cs@.subrange(0, k as int), cs@[k as int]);
        }
        k = k + 1;
    }
    proof {
        assert(cs@.subrange(0, cs@.len() as int) =~= cs@);
    }
    cur
}


/// Evaluations of the equality indicator `eq(point, x)` over the hypercube
/// on `x`, lowest variable of `x` in the lowest index bit.
pub open spec fn eq_expand_spec(point: Seq<u16>) -> Seq<u16>
    decreases point.len(),
{
    if point.len() == 0 {
        seq![1u16]
    } else {
        let rest = eq_expand_spec(point.drop_first());
        Seq::new(
            2 * rest.len(),
            |i: int| if i % 2 == 0 {
                fe_mul_spec(rest[i / 2], 1u16 ^ point[0])
            } else {
                fe_mul_spec(rest[i / 2], point[0])
            },
        )
    }
}

/// The expansion covers the whole hypercube of the point's arity.
pub proof fn lemma_eq_expand_len(point: Seq<u16>)
    ensures
        eq_expand_spec(point).len() == pow2(point.len()),
    decreases point.len(),
{
    if point.len() > 0 {
        lemma_eq_expand_len(point.drop_first());
    }
}

/// Materialize the equality-indicator table of `point`.
pub fn eq_expand(point: &Vec<u16>) -> (r: Vec<u16>)
    requires
        point@.len() <= MAX_VARS,
    ensures
        r@ == eq_expand_spec(point@),
        r@.len() == pow2(point@.len()),
{
    let n = point.len();
    let mut cur: Vec<u16> = Vec::new();
    cur.push(1u16);
    proof {
        assert(cur@ =~= seq![1u16]);
        assert(point@.subrange(n as int, n as int) =~= Seq::<u16>::empty());
        assert(eq_expand_spec(point@.subrange(n as int, n as int)) == seq![1u16]);
    }
    let mut k: usize = n;
    while k > 0
        invariant
            k <= n,
            n == point@.len(),
            n <= MAX_VARS,
            cur@ == eq_expand_spec(point@.subrange(k as int, n as int)),
            cur@.len() == pow2((n - k) as nat),
        decreases k,
    {
        proof {
            lemma_pow2_bounds((n - k) as nat);
            lemma_pow2_bounds((n - k + 1) as nat);
        }
        let p0 = point[k - 1];
        let mut next: Vec<u16> = Vec::new();
        let mut i: usize = 0;
        while i < cur.len()
            invariant
                i <= cur@.len(),
                cur@.len() <= 0x1000000,
                next@.len() == 2 * i,
                forall|t: int|
                    0 <= t < 2 * i ==> #[trigger] next@[t] == (if t % 2 == 0 {
                        fe_mul_spec(cur@[t / 2], 1u16 ^ p0)
                    } else {
                        fe_mul_spec(cur@[t / 2], p0)
                    }),
            decreases cur@.len() - i,
        {
            let lane = cur[i];
            next.push(fe_mul(lane, 1u16 ^ p0));
            next.push(fe_mul(lane, p0));
            proof {
                assert((2 * i) % 2 == 0 && (2 * i) / 2 == i as int);
                assert((2 * i + 1) % 2 == 1 && (2 * i + 1) / 2 == i as int);
            }
            i = i + 1;
        }
        proof {
            let sub = point@.subrange(k - 1, n as int);
            assert(sub[0] == p0);
            assert(sub.drop_first() =~= point@.subrange(k as int, n as int));
            lemma_eq_expand_len(sub.drop_first());
            assert(next@ =~= eq_expand_spec(sub));
        }
        cur = next;
        k = k - 1;
    }
    proof {
        assert(point@.subrange(0, n as int) =~= point@);
    }
    cur
}

impl SumcheckMultilinear {
    /// The scalar table this representation stands for at `rem` unbound
    /// variables, after the challenges bound so far: a Transparent value
    /// recomputes it from the unfolded polynomial, a Folded value reads its
    /// stored lanes under the suffix padding.
    pub open spec fn spec_current_scalars(self, rem: nat, cs: Seq<u16>) -> Seq<u16> {
        if self.is_transparent() {
            fold_multi(self.unfolded().evals@, cs)
        } else {
            Seq::new(pow2(rem), |j: int| padded_get(self.stored(), self.suffix_scalar(), j))
        }
    }

    /// Materialize the current scalar table.
    pub fn current_scalars(&self, rem: usize, challenges: &Vec<u16>) -> (r: Vec<u16>)
        requires
            self.wf(),
            rem <= MAX_VARS,
            self.is_transparent() ==> challenges@.len() + rem == self.unfolded().n_vars,
        ensures
            r@ == self.spec_current_scalars(rem as nat, challenges@),
            r@.len() == pow2(rem as nat),
    {
        match self {
            SumcheckMultilinear::Transparent { multilinear, .. } => {
                let r = fold_scalars_multi(&multilinear.evals, challenges);
                proof {
                    lemma_fold_multi_len(
                        multilinear.evals@,
                        challenges@,
                        multilinear.n_vars as nat,
                    );
                }
                r
            },
            SumcheckMultilinear::Folded { large_field_folded_evals, suffix_eval } => {
                let n = pow2_exec(rem);
                let mut out: Vec<u16> = Vec::new();
                let mut j: usize = 0;
                while j < n
                    invariant
                        j <= n,
                        out@.len() == j,
                        forall|t: int|
                            0 <= t < j ==> out@[t] == padded_get(
                                large_field_folded_evals@,
                                *suffix_eval,
                                t,
                            ),
                    decreases n - j,
                {
                    out.push(padded_read(large_field_folded_evals, *suffix_eval, j));
                    j = j + 1;
                }
                proof {
                    assert(out@ =~= Seq::new(
                        pow2(rem as nat),
                        |t: int| padded_get(self.stored(), self.suffix_scalar(), t),
                    ));
                }
                out
            },
        }
    }
}

} // verus!
