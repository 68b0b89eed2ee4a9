use edgen_core::resource::{saturating_mul_u64, ResourceVector};

#[test]
fn new_keeps_every_dimension() {
    let v = ResourceVector::new(1, 2, 3);
    assert_eq!(v.threads, 1);
    assert_eq!(v.context_tokens, 2);
    assert_eq!(v.device_memory, 3);
}

#[test]
fn zero_is_zero() {
    assert!(ResourceVector::zero().is_zero());
    assert!(!ResourceVector::new(0, 0, 1).is_zero());
    assert!(!ResourceVector::new(1, 0, 0).is_zero());
    assert_eq!(ResourceVector::zero(), ResourceVector::new(0, 0, 0));
}

#[test]
fn fits_within_is_judged_in_every_dimension() {
    let limit = ResourceVector::new(4, 4, 4);
    assert!(ResourceVector::new(4, 4, 4).fits_within(&limit));
    assert!(ResourceVector::new(0, 0, 0).fits_within(&limit));
    assert!(!ResourceVector::new(5, 0, 0).fits_within(&limit));
    assert!(!ResourceVector::new(0, 5, 0).fits_within(&limit));
    assert!(!ResourceVector::new(0, 0, 5).fits_within(&limit));
}

#[test]
fn checked_add_sums_each_dimension() {
    let a = ResourceVector::new(1, 2, 3);
    let b = ResourceVector::new(10, 20, 30);
    assert_eq!(a.checked_add(&b), Some(ResourceVector::new(11, 22, 33)));
}

#[test]
fn checked_add_refuses_an_overflow_in_any_dimension() {
    let one = ResourceVector::new(1, 1, 1);
    assert_eq!(ResourceVector::new(u64::MAX, 0, 0).checked_add(&one), None);
    assert_eq!(ResourceVector::new(0, u64::MAX, 0).checked_add(&one), None);
    assert_eq!(ResourceVector::new(0, 0, u64::MAX).checked_add(&one), None);
    assert_eq!(
        ResourceVector::new(u64::MAX - 1, 0, 0).checked_add(&one),
        Some(ResourceVector::new(u64::MAX, 1, 1))
    );
}

#[test]
fn checked_sub_takes_a_part_away() {
    let whole = ResourceVector::new(10, 20, 30);
    assert_eq!(
        whole.checked_sub(&ResourceVector::new(1, 2, 3)),
        Some(ResourceVector::new(9, 18, 27))
    );
    assert_eq!(whole.checked_sub(&whole), Some(ResourceVector::zero()));
    assert_eq!(whole.checked_sub(&ResourceVector::new(11, 0, 0)), None);
    assert_eq!(whole.checked_sub(&ResourceVector::new(0, 0, 31)), None);
}

#[test]
fn saturating_add_stops_at_the_top() {
    let a = ResourceVector::new(u64::MAX, 5, u64::MAX - 1);
    let b = ResourceVector::new(1, 6, 1);
    assert_eq!(a.saturating_add(&b), ResourceVector::new(u64::MAX, 11, u64::MAX));
}

#[test]
fn saturating_mul_of_numbers() {
    assert_eq!(saturating_mul_u64(6, 7), 42);
    assert_eq!(saturating_mul_u64(0, u64::MAX), 0);
    assert_eq!(saturating_mul_u64(u64::MAX, 2), u64::MAX);
    assert_eq!(saturating_mul_u64(1 << 32, 1 << 32), u64::MAX);
    assert_eq!(saturating_mul_u64(1 << 32, (1 << 32) - 1), u64::MAX - (1 << 32) + 1);
}
