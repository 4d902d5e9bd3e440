use greedy_evalcheck::field::{fe_add, fe_mul, FE_ONE};
use greedy_evalcheck::util::pow2_exec;

#[test]
fn add_is_xor() {
    assert_eq!(fe_add(0x1234, 0x00ff), 0x12cb);
    assert_eq!(fe_add(7, 7), 0);
    assert_eq!(fe_add(0, 0x8001), 0x8001);
}

#[test]
fn mul_identity() {
    assert_eq!(fe_mul(FE_ONE, 0x1234), 0x1234);
    assert_eq!(fe_mul(0x1234, FE_ONE), 0x1234);
}

#[test]
fn mul_zero() {
    assert_eq!(fe_mul(0, 0x5a5a), 0);
    assert_eq!(fe_mul(0x5a5a, 0), 0);
}

#[test]
fn mul_known_values() {
    // (x + 1)^2 = x^2 + 1 in characteristic two.
    assert_eq!(fe_mul(3, 3), 5);
    // x * x^15 = x^16 reduces to x^5 + x^3 + x + 1.
    assert_eq!(fe_mul(2, 0x8000), 0x2b);
    assert_eq!(fe_mul(0x8000, 2), 0x2b);
}

#[test]
fn pow2_values() {
    assert_eq!(pow2_exec(0), 1);
    assert_eq!(pow2_exec(1), 2);
    assert_eq!(pow2_exec(10), 1024);
    assert_eq!(pow2_exec(24), 0x1000000);
}
