use eris_hub::error::HubError;
use eris_hub::helpers::{dedupe, pick_smallest};
use eris_hub::math::{
    compute_mint_amount, compute_redelegations_for_removal, compute_unbond_amount,
    compute_undelegations, total_delegated,
};
use eris_hub::rebalance::compute_redelegations_for_rebalancing;
use eris_hub::types::{Delegation, Redelegation, Undelegation};

fn delegations(list: &[(&str, u128)]) -> Vec<Delegation> {
    list.iter().map(|(v, a)| Delegation::new(v, *a)).collect()
}

fn apply(list: &[(&str, u128)], moves: &[Redelegation]) -> Vec<u128> {
    let mut amounts: Vec<u128> = list.iter().map(|(_, a)| *a).collect();
    for m in moves {
        let src = list.iter().position(|(v, _)| *v == m.src).unwrap();
        let dst = list.iter().position(|(v, _)| *v == m.dst).unwrap();
        amounts[src] -= m.amount;
        amounts[dst] += m.amount;
    }
    amounts
}

#[test]
fn total_delegated_adds_up() {
    assert_eq!(total_delegated(&delegations(&[])), Some(0));
    assert_eq!(total_delegated(&delegations(&[("a", 1), ("b", 2), ("c", 3)])), Some(6));
    assert_eq!(total_delegated(&delegations(&[("a", u128::MAX), ("b", 1)])), None);
}

#[test]
fn mint_at_bootstrap_is_one_for_one() {
    assert_eq!(compute_mint_amount(0, 1_000_000, &delegations(&[])), Ok(1_000_000));
    assert_eq!(compute_mint_amount(0, 5, &delegations(&[("alice", 77)])), Ok(5));
    assert_eq!(compute_mint_amount(77, 5, &delegations(&[("alice", 0)])), Ok(5));
}

#[test]
fn mint_is_pro_rata_and_rounds_down() {
    let d = delegations(&[("alice", 341_667), ("bob", 341_667), ("charlie", 341_666)]);
    // 12345 * 1_000_000 / 1_025_000 = 12043.9..
    assert_eq!(compute_mint_amount(1_000_000, 12_345, &d), Ok(12_043));
    // 100 * 1_000_000 / 1_050_000 = 95.2..
    let grown = delegations(&[("alice", 341_667), ("bob", 341_667), ("charlie", 341_666), ("dave", 25_000)]);
    assert_eq!(compute_mint_amount(1_000_000, 100, &grown), Ok(95));
    // 7 * 3 / 2 = 10.5
    assert_eq!(compute_mint_amount(3, 7, &delegations(&[("alice", 2)])), Ok(10));
}

#[test]
fn mint_reports_overflow() {
    let d = delegations(&[("alice", 1)]);
    assert_eq!(compute_mint_amount(u128::MAX, 2, &d), Err(HubError::Overflow));
    let too_much = delegations(&[("alice", u128::MAX), ("bob", 1)]);
    assert_eq!(compute_mint_amount(1, 1, &too_much), Err(HubError::Overflow));
    // the widened product is fine as long as the quotient fits
    let big = delegations(&[("alice", u128::MAX)]);
    assert_eq!(compute_mint_amount(u128::MAX, 12, &big), Ok(12));
}

#[test]
fn unbond_amount_is_pro_rata() {
    let d = delegations(&[("alice", 300), ("bob", 700)]);
    assert_eq!(compute_unbond_amount(500, 100, &d), Ok(200));
    assert_eq!(compute_unbond_amount(3, 1, &d), Ok(333));
    assert_eq!(compute_unbond_amount(0, 100, &d), Ok(0));
    assert_eq!(compute_unbond_amount(1, 2, &delegations(&[("a", u128::MAX)])), Err(HubError::Overflow));
}

#[test]
fn mint_then_unbond_loses_less_than_one_share() {
    // supply 100, bonded 200: a deposit of 51 mints 25 shares, worth 50 afterwards
    let d = delegations(&[("alice", 200)]);
    let minted = compute_mint_amount(100, 51, &d).unwrap();
    assert_eq!(minted, 25);
    let after = delegations(&[("alice", 251)]);
    let back = compute_unbond_amount(100 + minted, minted, &after).unwrap();
    assert_eq!(back, 50);
    assert!(back <= 51);
    assert!((51 - back) * (100 + minted) < 200 + 100 + minted);
}

#[test]
fn at_par_bonding_and_unbonding_are_exact() {
    let d = delegations(&[("alice", 600), ("bob", 400)]);
    assert_eq!(compute_mint_amount(1000, 123, &d), Ok(123));
    assert_eq!(compute_unbond_amount(1000, 123, &d), Ok(123));
}

#[test]
fn computing_undelegations() {
    let d = delegations(&[("alice", 400), ("bob", 300), ("charlie", 200)]);
    // lowering all three to 149 would release 453: alice and bob stay at 150
    let got = compute_undelegations(451, &d).unwrap();
    assert_eq!(
        got,
        vec![
            Undelegation::new("alice", 250),
            Undelegation::new("bob", 150),
            Undelegation::new("charlie", 51),
        ]
    );
    let total: u128 = got.iter().map(|u| u.amount).sum();
    assert_eq!(total, 451);
}

#[test]
fn undelegations_lower_the_largest_to_a_common_level() {
    let d = delegations(&[("alice", 10), ("bob", 100), ("charlie", 0)]);
    assert_eq!(compute_undelegations(20, &d).unwrap(), vec![Undelegation::new("bob", 20)]);
    // what remains is 35, 35, 10
    let d = delegations(&[("alice", 50), ("bob", 50), ("charlie", 10)]);
    assert_eq!(
        compute_undelegations(30, &d).unwrap(),
        vec![Undelegation::new("alice", 15), Undelegation::new("bob", 15)]
    );
    // what remains is 9, 9, 8
    let d = delegations(&[("alice", 10), ("bob", 10), ("charlie", 10)]);
    assert_eq!(
        compute_undelegations(4, &d).unwrap(),
        vec![
            Undelegation::new("alice", 1),
            Undelegation::new("bob", 1),
            Undelegation::new("charlie", 2),
        ]
    );
    // what remains is 7, 3, 8, 0, 7
    let d = delegations(&[("a", 9), ("b", 3), ("c", 20), ("d", 0), ("e", 8)]);
    assert_eq!(
        compute_undelegations(15, &d).unwrap(),
        vec![Undelegation::new("a", 1), Undelegation::new("c", 13), Undelegation::new("e", 1)]
    );
}

#[test]
fn undelegations_never_exceed_holdings_and_sum_up() {
    let list = [("a", 5u128), ("b", 0), ("c", 17), ("d", 3), ("e", 9)];
    let d = delegations(&list);
    for unbond in 0..=34u128 {
        let got = compute_undelegations(unbond, &d).unwrap();
        let total: u128 = got.iter().map(|u| u.amount).sum();
        assert_eq!(total, unbond);
        let mut left: Vec<u128> = list.iter().map(|(_, a)| *a).collect();
        let mut cut: Vec<bool> = vec![false; list.len()];
        for u in &got {
            assert!(u.amount > 0);
            let at = list.iter().position(|(v, _)| *v == u.validator).unwrap();
            assert!(u.amount <= left[at]);
            left[at] -= u.amount;
            cut[at] = true;
        }
        // whoever gave something up is left within one of the highest remaining amount
        let highest = *left.iter().max().unwrap();
        for at in 0..left.len() {
            if cut[at] {
                assert!(highest - left[at] <= 1);
            }
        }
    }
}

#[test]
fn undelegations_leave_the_smallest_possible_largest_delegation() {
    let lists: [&[(&str, u128)]; 3] = [
        &[("a", 5), ("b", 0), ("c", 17), ("d", 3), ("e", 9)],
        &[("a", 50), ("b", 50), ("c", 10)],
        &[("a", 7), ("b", 7), ("c", 7), ("d", 7)],
    ];
    for list in lists {
        let total: u128 = list.iter().map(|(_, a)| *a).sum();
        for unbond in 0..=total {
            let got = compute_undelegations(unbond, &delegations(list)).unwrap();
            let mut left: Vec<u128> = list.iter().map(|(_, a)| *a).collect();
            for u in &got {
                let at = list.iter().position(|(v, _)| *v == u.validator).unwrap();
                left[at] -= u.amount;
            }
            let highest = *left.iter().max().unwrap();
            // the lowest cap under which everybody can be brought by giving up `unbond` at most
            let mut cap: u128 = 0;
            while list.iter().map(|(_, a)| a.saturating_sub(cap)).sum::<u128>() > unbond {
                cap += 1;
            }
            assert_eq!(highest, cap);
        }
    }
}

#[test]
fn undelegations_of_everything_and_of_nothing() {
    let d = delegations(&[("alice", 7), ("bob", 3)]);
    assert_eq!(
        compute_undelegations(10, &d).unwrap(),
        vec![Undelegation::new("alice", 7), Undelegation::new("bob", 3)]
    );
    assert_eq!(compute_undelegations(0, &d).unwrap(), vec![]);
}

#[test]
fn undelegations_report_errors() {
    assert_eq!(compute_undelegations(0, &delegations(&[])), Err(HubError::NoValidators));
    let d = delegations(&[("alice", 7), ("bob", 3)]);
    assert_eq!(compute_undelegations(11, &d), Err(HubError::Overflow));
    let big = delegations(&[("alice", u128::MAX), ("bob", 3)]);
    assert_eq!(compute_undelegations(1, &big), Err(HubError::Overflow));
}

#[test]
fn computing_redelegations_for_removal() {
    let d = delegations(&[("bob", 12000), ("charlie", 11000), ("dave", 10000)]);
    // total 46000: shares 15334, 15333, 15333
    let got = compute_redelegations_for_removal(&Delegation::new("alice", 13000), &d).unwrap();
    assert_eq!(
        got,
        vec![
            Redelegation::new("alice", "bob", 3334),
            Redelegation::new("alice", "charlie", 4333),
            Redelegation::new("alice", "dave", 5333),
        ]
    );
}

#[test]
fn removal_moves_everything_and_reports_errors() {
    let d = delegations(&[("bob", 100), ("charlie", 0)]);
    // total 130: shares 65 each; bob is above and gets nothing
    let got = compute_redelegations_for_removal(&Delegation::new("alice", 30), &d).unwrap();
    assert_eq!(got, vec![Redelegation::new("alice", "charlie", 30)]);
    let none = compute_redelegations_for_removal(&Delegation::new("alice", 0), &d).unwrap();
    assert_eq!(none, vec![]);
    assert_eq!(
        compute_redelegations_for_removal(&Delegation::new("alice", 30), &delegations(&[])),
        Err(HubError::NoValidators)
    );
    assert_eq!(
        compute_redelegations_for_removal(&Delegation::new("alice", u128::MAX), &d),
        Err(HubError::Overflow)
    );
}

#[test]
fn computing_redelegations_for_rebalancing() {
    let list = [
        ("alice", 69420u128),
        ("bob", 1234),
        ("charlie", 88888),
        ("dave", 40471),
        ("evan", 2345),
    ];
    // total 202358: shares 40472, 40472, 40472, 40471, 40471
    let got = compute_redelegations_for_rebalancing(&delegations(&list)).unwrap();
    assert_eq!(
        got,
        vec![
            Redelegation::new("alice", "bob", 28948),
            Redelegation::new("charlie", "bob", 10290),
            Redelegation::new("charlie", "evan", 38126),
        ]
    );
    assert_eq!(apply(&list, &got), vec![40472, 40472, 40472, 40471, 40471]);
}

#[test]
fn rebalancing_leaves_a_balanced_list_alone() {
    let d = delegations(&[("alice", 341_667), ("bob", 341_667), ("charlie", 341_666)]);
    assert_eq!(compute_redelegations_for_rebalancing(&d).unwrap(), vec![]);
}

#[test]
fn rebalanced_amounts_differ_by_at_most_one() {
    let lists: [&[(&str, u128)]; 4] = [
        &[("a", 0), ("b", 0), ("c", 100)],
        &[("a", 7), ("b", 1), ("c", 1), ("d", 2)],
        &[("a", 1), ("b", 1000), ("c", 3), ("d", 999), ("e", 5), ("f", 0), ("g", 12)],
        &[("a", 5)],
    ];
    for list in lists {
        let moves = compute_redelegations_for_rebalancing(&delegations(list)).unwrap();
        for m in &moves {
            assert!(m.amount > 0);
            assert_ne!(m.src, m.dst);
        }
        let after = apply(list, &moves);
        let max = *after.iter().max().unwrap();
        let min = *after.iter().min().unwrap();
        assert!(max - min <= 1);
        let before: u128 = list.iter().map(|(_, a)| *a).sum();
        assert_eq!(after.iter().sum::<u128>(), before);
    }
}

#[test]
fn rebalancing_reports_errors() {
    assert_eq!(
        compute_redelegations_for_rebalancing(&delegations(&[])),
        Err(HubError::NoValidators)
    );
    assert_eq!(
        compute_redelegations_for_rebalancing(&delegations(&[("a", u128::MAX), ("b", 1)])),
        Err(HubError::Overflow)
    );
}

#[test]
fn smallest_delegation_wins_and_ties_go_to_the_first() {
    assert_eq!(pick_smallest(&delegations(&[])), None);
    assert_eq!(pick_smallest(&delegations(&[("a", 5)])), Some(0));
    assert_eq!(pick_smallest(&delegations(&[("a", 5), ("b", 3), ("c", 3), ("d", 9)])), Some(1));
    assert_eq!(pick_smallest(&delegations(&[("a", 0), ("b", 0), ("c", 0)])), Some(0));
    assert_eq!(
        pick_smallest(&delegations(&[("a", 341_667), ("b", 341_667), ("c", 341_666)])),
        Some(2)
    );
}

#[test]
fn dedupe_keeps_first_occurrences_in_order() {
    let mut v: Vec<String> =
        ["bob", "alice", "bob", "charlie", "alice", "bob"].iter().map(|s| s.to_string()).collect();
    dedupe(&mut v);
    assert_eq!(v, vec!["bob".to_string(), "alice".to_string(), "charlie".to_string()]);
    let mut again = v.clone();
    dedupe(&mut again);
    assert_eq!(again, v);
    let mut empty: Vec<String> = vec![];
    dedupe(&mut empty);
    assert!(empty.is_empty());
}
