use stark_experiment::field::{fadd, felt, fmul, fsub, MODULUS};

#[test]
fn felt_reduces_modulo_p() {
    assert_eq!(felt(3), 3);
    assert_eq!(felt(MODULUS), 0);
    assert_eq!(felt(MODULUS + 5), 5);
    assert_eq!(felt(u64::MAX), u64::MAX - MODULUS);
}

#[test]
fn addition_wraps_at_p() {
    assert_eq!(fadd(2, 3), 5);
    assert_eq!(fadd(MODULUS - 1, 2), 1);
    assert_eq!(fadd(MODULUS - 1, 1), 0);
}

#[test]
fn subtraction_wraps_below_zero() {
    assert_eq!(fsub(5, 3), 2);
    assert_eq!(fsub(0, 1), MODULUS - 1);
    assert_eq!(fsub(3, 5), MODULUS - 2);
}

#[test]
fn multiplication_reduces_the_product() {
    assert_eq!(fmul(6, 7), 42);
    assert_eq!(fmul(MODULUS - 1, MODULUS - 1), 1);
    // 2^64 is congruent to 2^32 - 1 modulo p.
    assert_eq!(fmul(1 << 32, 1 << 32), (1 << 32) - 1);
}
