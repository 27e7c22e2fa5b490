use competitive::algebra::{
    AdditiveOperation, Invertible, Magma, MaxOperation, MultiplicativeOperation, Unital,
};
use competitive::ring::{AddMulOperation, Ring, SemiRing};

#[test]
fn test_additive_operation() {
    assert_eq!(<AdditiveOperation<u64> as Magma>::operate(&2, &3), 5);
    assert_eq!(<AdditiveOperation<u64> as Unital>::unit(), 0);
    assert_eq!(<AdditiveOperation<u64> as Magma>::operate(&u64::MAX, &1), 0);
    assert_eq!(<AdditiveOperation<i64> as Magma>::operate(&-4, &9), 5);
    assert_eq!(<AdditiveOperation<i64> as Invertible>::inverse(&7), -7);
    assert_eq!(<AdditiveOperation<i64> as Invertible>::rinv_operate(&10, &3), 7);
    assert_eq!(<AdditiveOperation<usize> as Magma>::operate(&11, &31), 42);
}

#[test]
fn test_max_operation() {
    assert_eq!(<MaxOperation<u64> as Magma>::operate(&2, &3), 3);
    assert_eq!(<MaxOperation<u64> as Magma>::operate(&3, &2), 3);
    assert_eq!(<MaxOperation<u64> as Unital>::unit(), 0);
    assert_eq!(<MaxOperation<i64> as Unital>::unit(), i64::MIN);
    assert_eq!(<MaxOperation<i64> as Magma>::operate(&-5, &-9), -5);
}

#[test]
fn test_multiplicative_operation() {
    assert_eq!(<MultiplicativeOperation<u64> as Magma>::operate(&6, &7), 42);
    assert_eq!(<MultiplicativeOperation<u64> as Unital>::unit(), 1);
    assert_eq!(
        <MultiplicativeOperation<u64> as Magma>::operate(&(1u64 << 63), &2),
        0
    );
}

#[test]
fn test_add_mul_semiring() {
    assert_eq!(<AddMulOperation<u64> as SemiRing>::zero(), 0);
    assert_eq!(<AddMulOperation<u64> as SemiRing>::one(), 1);
    assert_eq!(<AddMulOperation<u64> as SemiRing>::add(&20, &22), 42);
    assert_eq!(<AddMulOperation<u64> as SemiRing>::mul(&6, &9), 54);
}

#[test]
fn test_add_mul_ring_subtraction() {
    assert_eq!(<AddMulOperation<u64> as Ring>::neg(&1), u64::MAX);
    assert_eq!(<AddMulOperation<u64> as Ring>::sub(&10, &3), 7);
    assert_eq!(<AddMulOperation<u64> as Ring>::sub(&3, &10), u64::MAX - 6);
}
