use eris_hub::decimal::{get_reward_fee_cap, Decimal, DecimalCheckedOps, DECIMAL_FRACTIONAL};
use eris_hub::error::HubError;
use eris_hub::queries::compute_exchange_rate;

#[test]
fn decimal_constants() {
    assert_eq!(Decimal::zero().atomics, 0);
    assert_eq!(Decimal::one().atomics, 1_000_000_000_000_000_000);
    assert_eq!(DECIMAL_FRACTIONAL, 1_000_000_000_000_000_000);
    assert_eq!(Decimal::percent(1).atomics, 10_000_000_000_000_000);
    assert_eq!(get_reward_fee_cap().atomics, 100_000_000_000_000_000);
    assert_eq!(get_reward_fee_cap(), Decimal::from_ratio(10, 100).unwrap());
}

#[test]
fn decimal_from_ratio_rounds_down() {
    assert_eq!(Decimal::from_ratio(1, 100).unwrap(), Decimal::percent(1));
    assert_eq!(Decimal::from_ratio(1, 3).unwrap().atomics, 333_333_333_333_333_333);
    assert_eq!(Decimal::from_ratio(2, 3).unwrap().atomics, 666_666_666_666_666_666);
    assert_eq!(Decimal::from_ratio(0, 7).unwrap(), Decimal::zero());
    assert_eq!(Decimal::from_ratio(1, 0), Err(HubError::DivideByZero));
    assert_eq!(Decimal::from_ratio(u128::MAX, 1), Err(HubError::Overflow));
}

#[test]
fn decimal_agrees_with_the_chain_library() {
    for (n, d) in [(1u128, 100u128), (1, 3), (10, 100), (123_456, 789), (u128::MAX, u128::MAX)] {
        let theirs = cosmwasm_std::Decimal::from_ratio(n, d);
        assert_eq!(Decimal::from_ratio(n, d).unwrap().atomics, theirs.atomics().u128());
    }
}

#[test]
fn fee_is_the_rounded_down_product() {
    let one_percent = Decimal::from_ratio(1, 100).unwrap();
    assert_eq!(one_percent.checked_mul_uint(900), Ok(9));
    assert_eq!(one_percent.checked_mul_uint(99), Ok(0));
    assert_eq!(one_percent.checked_mul_uint(199), Ok(1));
    assert_eq!(one_percent.checked_mul_uint(0), Ok(0));
    assert_eq!(Decimal::zero().checked_mul_uint(900), Ok(0));
    assert_eq!(Decimal::one().checked_mul_uint(u128::MAX), Ok(u128::MAX));
    let two = Decimal::from_ratio(2, 1).unwrap();
    assert_eq!(two.checked_mul_uint(21), Ok(42));
    assert_eq!(two.checked_mul_uint(u128::MAX), Err(HubError::Overflow));
}

#[test]
fn decimal_sum_reports_overflow() {
    let a = Decimal::percent(40);
    let b = Decimal::percent(2);
    assert_eq!(a.checked_add(b), Ok(Decimal::percent(42)));
    let top = Decimal { atomics: u128::MAX };
    assert_eq!(top.checked_add(Decimal { atomics: 1 }), Err(HubError::Overflow));
    assert_eq!(top.checked_add(Decimal::zero()), Ok(top));
}

#[test]
fn decimal_comparisons() {
    assert!(Decimal::percent(11).gt(&get_reward_fee_cap()));
    assert!(!Decimal::percent(10).gt(&get_reward_fee_cap()));
    assert!(Decimal::zero().is_zero());
    assert!(!Decimal::one().is_zero());
}

#[test]
fn exchange_rate_is_one_while_either_side_is_zero() {
    assert_eq!(compute_exchange_rate(0, 0), Ok(Decimal::one()));
    assert_eq!(compute_exchange_rate(0, 5), Ok(Decimal::one()));
    assert_eq!(compute_exchange_rate(5, 0), Ok(Decimal::one()));
    assert_eq!(compute_exchange_rate(1_012_043, 1_000_000).unwrap().atomics, 1_012_043_000_000_000_000);
    assert_eq!(compute_exchange_rate(1, 3).unwrap().atomics, 333_333_333_333_333_333);
    assert_eq!(compute_exchange_rate(u128::MAX, 1), Err(HubError::Overflow));
}

#[test]
fn exchange_rate_does_not_fall_when_more_is_bonded() {
    let supply = 1_000_000u128;
    let mut last = compute_exchange_rate(1_000_000, supply).unwrap();
    for added in [0u128, 1, 891, 12_345, 1_000_000] {
        let next = compute_exchange_rate(1_000_000 + added, supply).unwrap();
        assert!(!last.gt(&next));
        last = next;
    }
}
