//! Scalars of the working binary field.
//!
//! A field element is a 16-bit polynomial over GF(2) in the basis of
//! `x^16 + x^5 + x^3 + x + 1`. Addition is carry-less (XOR); multiplication
//! is the shift-and-add product reduced modulo that polynomial. Every
//! executable operation is pinned to the spec-level definition, so the whole
//! reduction pipeline built on top of these scalars is deterministic by
//! construction.

use vstd::prelude::*;

verus! {

/// Low bits of the reduction polynomial `x^16 + x^5 + x^3 + x + 1`.
pub const REDUCTION_POLY: u16 = 0x2B;

/// The multiplicative identity of the field.
pub const FE_ONE: u16 = 1;

/// One doubling step of the shift-and-add product: multiply the running
/// operand by `x` and reduce.
pub open spec fn fe_double(a: u16) -> u16 {
    if a & 0x8000 != 0 {
        (a << 1) ^ REDUCTION_POLY
    } else {
        a << 1
    }
}

/// The last `k` shift-and-add steps of the product `a * b`.
pub open spec fn fe_mul_rec(a: u16, b: u16, k: nat) -> u16
    decreases k,
{
    if k == 0 {
        0
    } else {
        let rest = fe_mul_rec(fe_double(a), b >> 1, (k - 1) as nat);
        if b & 1 == 1 {
            rest ^ a
        } else {
            rest
        }
    }
}

/// The field product of `a` and `b`.
pub open spec fn fe_mul_spec(a: u16, b: u16) -> u16 {
    fe_mul_rec(a, b, 16)
}

/// The field sum of `a` and `b`: carry-less addition.
pub open spec fn fe_add_spec(a: u16, b: u16) -> u16 {
    a ^ b
}

/// Multiplying by zero yields zero, at any step count.
pub proof fn lemma_fe_mul_rec_zero(a: u16, k: nat)
    ensures
        fe_mul_rec(a, 0, k) == 0,
    decreases k,
{
    if k > 0 {
        assert(0u16 >> 1 == 0u16) by (bit_vector);
        assert(0u16 & 1 == 0u16) by (bit_vector);
        lemma_fe_mul_rec_zero(fe_double(a), (k - 1) as nat);
    }
}

/// A value is its own additive inverse, so folding two equal values at any
/// challenge returns the value itself.
pub proof fn lemma_xor_self(a: u16)
    ensures
        a ^ a == 0,
        a ^ 0 == a,
{
    assert(a ^ a == 0) by (bit_vector);
    assert(a ^ 0 == a) by (bit_vector);
}

/// Field addition.
pub fn fe_add(a: u16, b: u16) -> (r: u16)
    ensures
        r == fe_add_spec(a, b),
{
    a ^ b
}

/// Field multiplication by shift-and-add, reduced each step.
pub fn fe_mul(x: u16, y: u16) -> (r: u16)
    ensures
        r == fe_mul_spec(x, y),
{
    let mut a: u16 = x;
    let mut b: u16 = y;
    let mut acc: u16 = 0;
    let mut i: usize = 0;
    proof {
        let v = fe_mul_rec(x, y, 16);
        assert(0u16 ^ v == v) by (bit_vector);
    }
    while i < 16
        invariant
            i <= 16,
            fe_mul_spec(x, y) == acc ^ fe_mul_rec(a, b, (16 - i) as nat),
        decreases 16 - i,
    {
        let ghost acc0 = acc;
        let ghost a0 = a;
        let ghost b0 = b;
        let ghost rest = fe_mul_rec(fe_double(a0), b0 >> 1, (16 - i - 1) as nat);
        if b & 1 == 1 {
            acc = acc ^ a;
            assert((acc0 ^ a0) ^ rest == acc0 ^ (rest ^ a0)) by (bit_vector);
        }
        let hi: bool = a & 0x8000 != 0;
        a = a << 1;
        if hi {
            a = a ^ REDUCTION_POLY;
        }
        b = b >> 1;
        i = i + 1;
    }
    proof {
        assert(acc ^ fe_mul_rec(a, b, 0) == acc ^ 0);
        lemma_xor_self(acc);
    }
    acc
}

} // verus!
