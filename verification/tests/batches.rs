use eris_hub::batch::{mark_reconciled_batches, reconcile_batches, sum_unclaimed};
use eris_hub::coins::Coins;
use eris_hub::error::HubError;
use eris_hub::types::{Batch, Coin};

fn batch(id: u64, total_shares: u128, utoken_unclaimed: u128) -> Batch {
    Batch { id, reconciled: false, total_shares, utoken_unclaimed, est_unbond_end_time: 10_000 }
}

fn reconciled(id: u64, total_shares: u128, utoken_unclaimed: u128) -> Batch {
    Batch { id, reconciled: true, total_shares, utoken_unclaimed, est_unbond_end_time: 10_000 }
}

#[test]
fn reconciling_batches() {
    let mut batches = vec![batch(1, 1000, 600), batch(2, 1000, 400)];
    assert_eq!(reconcile_batches(&mut batches, 20), Ok(()));
    assert_eq!(batches, vec![reconciled(1, 1000, 588), reconciled(2, 1000, 392)]);
}

#[test]
fn rounding_remainder_goes_to_the_last_batch() {
    let mut batches = vec![batch(1, 1, 100), batch(2, 2, 100), batch(3, 3, 100)];
    // 10 * 100 / 300 = 3 each, the last takes 10 - 6 = 4
    assert_eq!(reconcile_batches(&mut batches, 10), Ok(()));
    assert_eq!(batches, vec![reconciled(1, 1, 97), reconciled(2, 2, 97), reconciled(3, 3, 96)]);
    let left: u128 = batches.iter().map(|b| b.utoken_unclaimed).sum();
    assert_eq!(left, 290);
}

#[test]
fn reconciling_a_single_batch_takes_the_whole_deficit() {
    let mut batches = vec![batch(7, 10, 1000)];
    assert_eq!(reconcile_batches(&mut batches, 999), Ok(()));
    assert_eq!(batches, vec![reconciled(7, 10, 1)]);
}

#[test]
fn reconciling_fails_without_changing_anything() {
    let mut empty: Vec<Batch> = vec![];
    assert_eq!(reconcile_batches(&mut empty, 1), Err(HubError::DivideByZero));
    let mut nothing = vec![batch(1, 5, 0), batch(2, 5, 0)];
    assert_eq!(reconcile_batches(&mut nothing, 1), Err(HubError::DivideByZero));
    assert_eq!(nothing, vec![batch(1, 5, 0), batch(2, 5, 0)]);
    let mut small = vec![batch(1, 5, 10), batch(2, 5, 10)];
    assert_eq!(reconcile_batches(&mut small, 21), Err(HubError::Overflow));
    assert_eq!(small, vec![batch(1, 5, 10), batch(2, 5, 10)]);
    // the remainder falls to a last batch that cannot carry it
    let mut tail = vec![batch(1, 5, 1), batch(2, 5, 1), batch(3, 5, 0)];
    assert_eq!(reconcile_batches(&mut tail, 1), Err(HubError::Overflow));
    assert_eq!(tail, vec![batch(1, 5, 1), batch(2, 5, 1), batch(3, 5, 0)]);
    let mut huge = vec![batch(1, 5, u128::MAX), batch(2, 5, 1)];
    assert_eq!(reconcile_batches(&mut huge, 1), Err(HubError::Overflow));
}

#[test]
fn reconciling_with_no_deficit_only_flags() {
    let mut a = vec![batch(1, 1000, 600), batch(2, 1000, 400)];
    let mut b = a.clone();
    assert_eq!(reconcile_batches(&mut a, 0), Ok(()));
    mark_reconciled_batches(&mut b);
    assert_eq!(a, b);
}

#[test]
fn marking_is_idempotent() {
    let mut batches = vec![batch(1, 1000, 600), reconciled(2, 1000, 400)];
    mark_reconciled_batches(&mut batches);
    assert_eq!(batches, vec![reconciled(1, 1000, 600), reconciled(2, 1000, 400)]);
    let once = batches.clone();
    mark_reconciled_batches(&mut batches);
    assert_eq!(batches, once);
}

#[test]
fn unclaimed_sum() {
    assert_eq!(sum_unclaimed(&vec![]), Some(0));
    assert_eq!(sum_unclaimed(&vec![batch(1, 1, 600), batch(2, 1, 400)]), Some(1000));
    assert_eq!(sum_unclaimed(&vec![batch(1, 1, u128::MAX), batch(2, 1, 1)]), None);
}

#[test]
fn ledger_merges_by_denomination() {
    let mut coins = Coins::new();
    assert_eq!(coins.add(&Coin::new(200, "ujuno")), Ok(()));
    assert_eq!(coins.add(&Coin::new(100, "ibc/test")), Ok(()));
    assert_eq!(coins.add(&Coin::new(700, "ujuno")), Ok(()));
    assert_eq!(coins.0, vec![Coin::new(900, "ujuno"), Coin::new(100, "ibc/test")]);
    assert_eq!(coins.find("ujuno"), Coin::new(900, "ujuno"));
    assert_eq!(coins.find("uluna"), Coin::new(0, "uluna"));
    coins.remove_denom("ujuno");
    assert_eq!(coins.0, vec![Coin::new(100, "ibc/test")]);
    assert_eq!(coins.find("ujuno"), Coin::new(0, "ujuno"));
    coins.remove_denom("ujuno");
    assert_eq!(coins.0, vec![Coin::new(100, "ibc/test")]);
}

#[test]
fn ledger_adds_many_or_nothing() {
    let mut coins = Coins(vec![Coin::new(5, "a")]);
    let more = Coins(vec![Coin::new(1, "b"), Coin::new(2, "a"), Coin::new(3, "b")]);
    assert_eq!(coins.add_many(&more), Ok(()));
    assert_eq!(coins.0, vec![Coin::new(7, "a"), Coin::new(4, "b")]);
    let too_much = Coins(vec![Coin::new(1, "c"), Coin::new(u128::MAX, "a")]);
    assert_eq!(coins.add_many(&too_much), Err(HubError::Overflow));
    assert_eq!(coins.0, vec![Coin::new(7, "a"), Coin::new(4, "b")]);
    assert_eq!(coins.add(&Coin::new(u128::MAX - 3, "b")), Err(HubError::Overflow));
    assert_eq!(coins.0, vec![Coin::new(7, "a"), Coin::new(4, "b")]);
}
