//! Powers of two over hypercube domains.

use vstd::prelude::*;

verus! {

/// Largest number of bound variables a multilinear may carry here; keeps
/// every domain size and packed length comfortably inside `usize`.
pub const MAX_VARS: usize = 24;

/// `2^n`.
pub open spec fn pow2(n: nat) -> nat
    decreases n,
{
    if n == 0 {
        1
    } else {
        2 * pow2((n - 1) as nat)
    }
}

/// `pow2` is positive.
pub proof fn lemma_pow2_pos(n: nat)
    ensures
        pow2(n) >= 1,
    decreases n,
{
    if n > 0 {
        lemma_pow2_pos((n - 1) as nat);
    }
}

/// Monotonicity of `pow2`.
pub proof fn lemma_pow2_le(a: nat, b: nat)
    requires
        a <= b,
    ensures
        pow2(a) <= pow2(b),
    decreases b,
{
    if a < b {
        lemma_pow2_le(a, (b - 1) as nat);
        lemma_pow2_pos((b - 1) as nat);
    }
}

/// `pow2` is bounded on the variable counts in use.
pub proof fn lemma_pow2_bounds(n: nat)
    ensures
        pow2(n) >= 1,
        n <= 24 ==> pow2(n) <= 0x1000000,
{
    lemma_pow2_pos(n);
    if n <= 24 {
        reveal_with_fuel(pow2, 26);
        assert(pow2(24) == 0x1000000);
        lemma_pow2_le(n, 24);
    }
}

/// Compute `2^n`.
pub fn pow2_exec(n: usize) -> (r: usize)
    requires
        n <= MAX_VARS,
    ensures
        r == pow2(n as nat),
        r >= 1,
        r <= 0x1000000,
{
    proof {
        lemma_pow2_bounds(n as nat);
    }
    let mut r: usize = 1;
    let mut k: usize = 0;
    while k < n
        invariant
            k <= n,
            n <= MAX_VARS,
            r == pow2(k as nat),
        decreases n - k,
    {
        proof {
            lemma_pow2_bounds((k + 1) as nat);
        }
        r = r * 2;
        k = k + 1;
    }
    r
}

} // verus!
