use vstd::prelude::*;
use crate::error::HubError;
use crate::even_split::{
    caps_upto, lemma_served_before, lemma_target_at_most_total, lemma_targets_partition,
    served_at, served_before, target, targets_upto,
};
use crate::leveling::{
    count_above_upto, excess_above, excess_above_upto, is_unbond_level, lemma_excess_monotonic,
    lemma_excess_within_total, lemma_level_exists, lemma_level_is_chosen,
    lemma_nothing_undelegated,
    lemma_undelegations_sum_and_bound, spare_at_level, unbond_level, undelegated_at,
    undelegations_upto,
};
use crate::ratio::multiply_ratio;
use crate::types::{Delegation, Redelegation, RedelegationView, StakeView, Undelegation};

verus! {

/// The mathematical contents of a list of delegations.
pub open spec fn stake_views(d: Seq<Delegation>) -> Seq<StakeView> {
    d.map_values(|x: Delegation| x@)
}

/// Sum of the first `i` amounts.
pub open spec fn staked_upto(d: Seq<StakeView>, i: nat) -> nat
    decreases i,
{
    if i == 0 {
        0
    } else {
        staked_upto(d, (i - 1) as nat) + d[i - 1].amount
    }
}

/// Sum of all amounts.
pub open spec fn total_staked(d: Seq<StakeView>) -> nat {
    staked_upto(d, d.len())
}

/// Prefix sums grow with the prefix.
pub proof fn lemma_staked_upto_monotonic(d: Seq<StakeView>, i: nat, j: nat)
    requires
        i <= j,
    ensures
        staked_upto(d, i) <= staked_upto(d, j),
    decreases j,
{
    if i < j {
        lemma_staked_upto_monotonic(d, i, (j - 1) as nat);
    }
}

/// Total amount delegated, or `None` when it does not fit in 128 bits.
pub fn total_delegated(delegations: &Vec<Delegation>) -> (r: Option<u128>)
    ensures
        match r {
            Some(t) => t == total_staked(stake_views(delegations@)),
            None => total_staked(stake_views(delegations@)) > u128::MAX,
        },
{
    let ghost d = stake_views(delegations@);
    let mut total: u128 = 0;
    let mut i: usize = 0;
    while i < delegations.len()
        invariant
            i <= delegations.len(),
            d == stake_views(delegations@),
            total == staked_upto(d, i as nat),
        decreases delegations.len() - i,
    {
        match total.checked_add(delegations[i].amount) {
            Some(t) => {
                total = t;
            },
            None => {
                proof {
                    lemma_staked_upto_monotonic(d, (i + 1) as nat, d.len());
                }
                return None;
            },
        }
        i += 1;
    }
    Some(total)
}

/// Receipt tokens owed for a deposit of `deposit`, given the token supply
/// and the total currently bonded: one for one while either side is zero,
/// otherwise pro rata, rounded down.
pub open spec fn mint_amount(supply: nat, deposit: nat, bonded: nat) -> nat {
    if supply == 0 || bonded == 0 {
        deposit
    } else {
        (deposit * supply) / bonded
    }
}

/// Bonded tokens released by burning `shares` receipt tokens: nothing while
/// the supply is zero, otherwise pro rata, rounded down.
pub open spec fn unbond_amount(supply: nat, shares: nat, bonded: nat) -> nat {
    if supply == 0 {
        0
    } else {
        (shares * bonded) / supply
    }
}

/// Number of receipt tokens to mint for `utoken_to_bond`.
///
/// Fails with `Overflow` exactly when the total bonded or the result leaves
/// the 128-bit range.
pub fn compute_mint_amount(
    ustake_supply: u128,
    utoken_to_bond: u128,
    current_delegations: &Vec<Delegation>,
) -> (r: Result<u128, HubError>)
    ensures
        r is Ok <==> total_staked(stake_views(current_delegations@)) <= u128::MAX && mint_amount(
            ustake_supply as nat,
            utoken_to_bond as nat,
            total_staked(stake_views(current_delegations@)),
        ) <= u128::MAX,
        r matches Ok(m) ==> m == mint_amount(
            ustake_supply as nat,
            utoken_to_bond as nat,
            total_staked(stake_views(current_delegations@)),
        ),
        r matches Err(e) ==> e == HubError::Overflow,
{
    let utoken_bonded: u128 = match total_delegated(current_delegations) {
        Some(t) => t,
        None => {
            return Err(HubError::Overflow);
        },
    };
    if ustake_supply == 0 || utoken_bonded == 0 {
        return Ok(utoken_to_bond);
    }
    assert(ustake_supply * utoken_to_bond == utoken_to_bond * ustake_supply) by (nonlinear_arith);
    match multiply_ratio(ustake_supply, utoken_to_bond, utoken_bonded) {
        Some(m) => Ok(m),
        None => Err(HubError::Overflow),
    }
}

/// Amount of bonded tokens to release for `ustake_to_burn` receipt tokens.
///
/// Fails with `Overflow` exactly when the total bonded or the result leaves
/// the 128-bit range.
pub fn compute_unbond_amount(
    ustake_supply: u128,
    ustake_to_burn: u128,
    current_delegations: &Vec<Delegation>,
) -> (r: Result<u128, HubError>)
    ensures
        r is Ok <==> total_staked(stake_views(current_delegations@)) <= u128::MAX && unbond_amount(
            ustake_supply as nat,
            ustake_to_burn as nat,
            total_staked(stake_views(current_delegations@)),
        ) <= u128::MAX,
        r matches Ok(u) ==> u == unbond_amount(
            ustake_supply as nat,
            ustake_to_burn as nat,
            total_staked(stake_views(current_delegations@)),
        ),
        r matches Err(e) ==> e == HubError::Overflow,
{
    let utoken_bonded: u128 = match total_delegated(current_delegations) {
        Some(t) => t,
        None => {
            return Err(HubError::Overflow);
        },
    };
    if ustake_supply == 0 {
        return Ok(0);
    }
    assert(utoken_bonded * ustake_to_burn == ustake_to_burn * utoken_bonded) by (nonlinear_arith);
    match multiply_ratio(utoken_bonded, ustake_to_burn, ustake_supply) {
        Some(u) => Ok(u),
        None => Err(HubError::Overflow),
    }
}

/// The mathematical contents of a list of undelegations.
pub open spec fn undelegation_views(u: Seq<Undelegation>) -> Seq<StakeView> {
    u.map_values(|x: Undelegation| x@)
}

/// The mathematical contents of a list of redelegations.
pub open spec fn redelegation_views(r: Seq<Redelegation>) -> Seq<RedelegationView> {
    r.map_values(|x: Redelegation| x@)
}

/// Sum of the first `i` amounts moved.
pub open spec fn moved_upto(r: Seq<RedelegationView>, i: nat) -> nat
    decreases i,
{
    if i == 0 {
        0
    } else {
        moved_upto(r, (i - 1) as nat) + r[i - 1].amount
    }
}

/// Sum of all amounts moved.
pub open spec fn total_moved(r: Seq<RedelegationView>) -> nat {
    moved_upto(r, r.len())
}

/// For each validator, how far its amount lies below its even share of `total`.
pub open spec fn deficit_under_target(d: Seq<StakeView>, total: nat) -> Seq<nat> {
    Seq::new(
        d.len(),
        |i: int|
            if d[i].amount < target(total, d.len(), i as nat) {
                (target(total, d.len(), i as nat) - d[i].amount) as nat
            } else {
                0nat
            },
    )
}

/// Amount moved to validator `i` when a validator holding `moving` leaves
/// and `d` are those that stay: validators are visited in order, and each
/// receives what it lacks to its even share of the new total, as long as
/// something is still to be moved.
pub open spec fn redelegated_at(d: Seq<StakeView>, moving: nat, i: nat) -> nat {
    served_at(deficit_under_target(d, total_staked(d) + moving), moving, i)
}

/// The redelegations to the first `i` remaining validators, empty ones left out.
pub open spec fn removal_upto(src: Seq<char>, d: Seq<StakeView>, moving: nat, i: nat) -> Seq<
    RedelegationView,
>
    decreases i,
{
    if i == 0 {
        Seq::empty()
    } else {
        let before = removal_upto(src, d, moving, (i - 1) as nat);
        let amount = redelegated_at(d, moving, (i - 1) as nat);
        if amount > 0 {
            before.push(RedelegationView { src, dst: d[i - 1].validator, amount })
        } else {
            before
        }
    }
}

/// Lists that agree on their first `i` amounts have the same sum there.
pub proof fn lemma_moved_upto_prefix(a: Seq<RedelegationView>, b: Seq<RedelegationView>, i: nat)
    requires
        i <= a.len(),
        i <= b.len(),
        forall|k: int| 0 <= k < i ==> a[k].amount == b[k].amount,
    ensures
        moved_upto(a, i) == moved_upto(b, i),
    decreases i,
{
    if i > 0 {
        lemma_moved_upto_prefix(a, b, (i - 1) as nat);
    }
}

proof fn lemma_removal_total(src: Seq<char>, d: Seq<StakeView>, moving: nat, i: nat)
    requires
        i <= d.len(),
    ensures
        total_moved(removal_upto(src, d, moving, i)) == served_before(
            deficit_under_target(d, total_staked(d) + moving),
            moving,
            i,
        ),
    decreases i,
{
    if i > 0 {
        lemma_removal_total(src, d, moving, (i - 1) as nat);
        let before = removal_upto(src, d, moving, (i - 1) as nat);
        let now = removal_upto(src, d, moving, i);
        if redelegated_at(d, moving, (i - 1) as nat) > 0 {
            lemma_moved_upto_prefix(before, now, before.len());
        }
    }
}

proof fn lemma_deficit_covers(d: Seq<StakeView>, total: nat, i: nat)
    requires
        i <= d.len(),
    ensures
        caps_upto(deficit_under_target(d, total), i) + staked_upto(d, i) >= targets_upto(
            total,
            d.len(),
            i,
        ),
    decreases i,
{
    if i > 0 {
        lemma_deficit_covers(d, total, (i - 1) as nat);
    }
}

/// The redelegations computed for a leaving validator add up to exactly the
/// amount it held, and no remaining validator is raised above its even share
/// of the new total.
pub proof fn lemma_removal_sum_and_bound(src: Seq<char>, d: Seq<StakeView>, moving: nat)
    requires
        d.len() > 0,
    ensures
        total_moved(removal_upto(src, d, moving, d.len())) == moving,
        forall|i: nat|
            i < d.len() && #[trigger] redelegated_at(d, moving, i) > 0 ==> d[i as int].amount
                + redelegated_at(d, moving, i) <= target(total_staked(d) + moving, d.len(), i),
{
    let total = total_staked(d) + moving;
    let caps = deficit_under_target(d, total);
    lemma_removal_total(src, d, moving, d.len());
    lemma_served_before(caps, moving, d.len());
    lemma_deficit_covers(d, total, d.len());
    lemma_targets_partition(total, d.len());
    assert forall|i: nat| i < d.len() implies #[trigger] redelegated_at(d, moving, i)
        <= caps[i as int] by {
        lemma_served_before(caps, moving, i);
    }
}

fn excess_above_level(delegations: &Vec<Delegation>, level: u128) -> (r: u128)
    requires
        total_staked(stake_views(delegations@)) <= u128::MAX,
    ensures
        r == excess_above(stake_views(delegations@), level as nat),
{
    let ghost d = stake_views(delegations@);
    let mut excess: u128 = 0;
    let mut i: usize = 0;
    while i < delegations.len()
        invariant
            i <= delegations@.len(),
            d == stake_views(delegations@),
            total_staked(d) <= u128::MAX,
            excess == excess_above_upto(d, level as nat, i as nat),
        decreases delegations@.len() - i,
    {
        proof {
            lemma_excess_within_total(d, level as nat, (i + 1) as nat);
        }
        if delegations[i].amount > level {
            excess = excess + (delegations[i].amount - level);
        }
        i += 1;
    }
    excess
}

/// Splits `utoken_to_unbond` into undelegations that leave what stays
/// bonded as even as possible: the largest delegations are lowered to a
/// common level, the first of them staying one above it where the amount
/// does not divide. One undelegation is returned for each validator that
/// gives up anything, in the order of `current_delegations`.
///
/// Fails with `NoValidators` when there is no delegation to draw on, and
/// with `Overflow` when the total bonded leaves the 128-bit range or is
/// smaller than the amount to unbond.
pub fn compute_undelegations(
    utoken_to_unbond: u128,
    current_delegations: &Vec<Delegation>,
) -> (r: Result<Vec<Undelegation>, HubError>)
    ensures
        r is Ok <==> current_delegations@.len() > 0 && utoken_to_unbond <= total_staked(
            stake_views(current_delegations@),
        ) <= u128::MAX,
        r matches Ok(u) ==> undelegation_views(u@) == undelegations_upto(
            stake_views(current_delegations@),
            utoken_to_unbond as nat,
            current_delegations@.len(),
        ) && total_staked(undelegation_views(u@)) == utoken_to_unbond,
        r matches Err(e) ==> e == if current_delegations@.len() == 0 {
            HubError::NoValidators
        } else {
            HubError::Overflow
        },
{
    let n: usize = current_delegations.len();
    if n == 0 {
        return Err(HubError::NoValidators);
    }
    let utoken_staked: u128 = match total_delegated(current_delegations) {
        Some(t) => t,
        None => {
            return Err(HubError::Overflow);
        },
    };
    if utoken_to_unbond > utoken_staked {
        return Err(HubError::Overflow);
    }
    let ghost d = stake_views(current_delegations@);
    let ghost unbond = utoken_to_unbond as nat;
    proof {
        lemma_undelegations_sum_and_bound(d, unbond);
    }
    let mut new_undelegations: Vec<Undelegation> = Vec::new();
    if utoken_to_unbond == 0 {
        proof {
            lemma_nothing_undelegated(d, d.len());
        }
        assert(undelegation_views(new_undelegations@) =~= undelegations_upto(d, 0, d.len()));
        return Ok(new_undelegations);
    }
    // the level lies between `low`, where enough is released, and `high`, where it is not
    let mut low: u128 = 0;
    let mut high: u128 = utoken_staked;
    proof {
        lemma_level_exists(d, unbond);
        let level = unbond_level(d, unbond);
        lemma_excess_monotonic(d, 0, level, d.len());
        if level + 1 <= utoken_staked {
            lemma_excess_monotonic(d, level + 1, utoken_staked as nat, d.len());
        }
    }
    while high - low > 1
        invariant
            low < high <= utoken_staked,
            d == stake_views(current_delegations@),
            total_staked(d) == utoken_staked,
            unbond == utoken_to_unbond,
            excess_above(d, low as nat) >= unbond,
            excess_above(d, high as nat) < unbond,
        decreases high - low,
    {
        let middle: u128 = low + (high - low) / 2;
        if excess_above_level(current_delegations, middle) >= utoken_to_unbond {
            low = middle;
        } else {
            high = middle;
        }
    }
    let level: u128 = low;
    let spare: u128 = excess_above_level(current_delegations, level) - utoken_to_unbond;
    proof {
        assert(is_unbond_level(d, unbond, level as nat));
        lemma_level_is_chosen(d, unbond, level as nat);
    }
    let mut kept_above: u128 = 0;
    let mut i: usize = 0;
    while i < n
        invariant
            i <= n,
            n == current_delegations@.len(),
            d == stake_views(current_delegations@),
            unbond == utoken_to_unbond,
            unbond > 0,
            level == unbond_level(d, unbond),
            spare == spare_at_level(d, unbond),
            kept_above <= spare,
            kept_above == spare || kept_above == count_above_upto(d, level as nat, i as nat),
            kept_above == spare ==> count_above_upto(d, level as nat, i as nat) >= spare,
            undelegation_views(new_undelegations@) == undelegations_upto(d, unbond, i as nat),
        decreases n - i,
    {
        let held: u128 = current_delegations[i].amount;
        let above: u128 = if held > level {
            held - level
        } else {
            0
        };
        let utoken_to_undelegate: u128 = if above > 0 && kept_above < spare {
            kept_above = kept_above + 1;
            above - 1
        } else {
            above
        };
        assert(utoken_to_undelegate == undelegated_at(d, unbond, i as nat));
        if utoken_to_undelegate > 0 {
            let ghost before = new_undelegations@;
            new_undelegations.push(
                Undelegation {
                    validator: current_delegations[i].validator.clone(),
                    amount: utoken_to_undelegate,
                },
            );
            assert(undelegation_views(new_undelegations@) =~= undelegation_views(before).push(
                StakeView { validator: d[i as int].validator, amount: utoken_to_undelegate as nat },
            ));
        }
        i += 1;
    }
    Ok(new_undelegations)
}

/// Redelegations that move everything held with a validator that leaves the
/// whitelist to those that remain: the leaving validator is the one source,
/// the remaining validators below their even share of the new total are the
/// sinks, and they are served in the order of `current_delegations`. One
/// redelegation is returned for each validator that receives anything.
///
/// Fails with `NoValidators` when nobody remains, and with `Overflow` when
/// the total bonded, the leaving amount included, leaves the 128-bit range.
pub fn compute_redelegations_for_removal(
    delegation_to_remove: &Delegation,
    current_delegations: &Vec<Delegation>,
) -> (r: Result<Vec<Redelegation>, HubError>)
    ensures
        r is Ok <==> current_delegations@.len() > 0 && total_staked(
            stake_views(current_delegations@),
        ) + delegation_to_remove.amount <= u128::MAX,
        r matches Ok(v) ==> redelegation_views(v@) == removal_upto(
            delegation_to_remove.validator@,
            stake_views(current_delegations@),
            delegation_to_remove.amount as nat,
            current_delegations@.len(),
        ) && total_moved(redelegation_views(v@)) == delegation_to_remove.amount,
        r matches Err(e) ==> e == if current_delegations@.len() == 0 {
            HubError::NoValidators
        } else {
            HubError::Overflow
        },
{
    let n: usize = current_delegations.len();
    if n == 0 {
        return Err(HubError::NoValidators);
    }
    let utoken_staked: u128 = match total_delegated(current_delegations) {
        Some(t) => t,
        None => {
            return Err(HubError::Overflow);
        },
    };
    let utoken_to_distribute: u128 = match utoken_staked.checked_add(delegation_to_remove.amount) {
        Some(t) => t,
        None => {
            return Err(HubError::Overflow);
        },
    };
    let ghost d = stake_views(current_delegations@);
    let ghost src = delegation_to_remove.validator@;
    let ghost moving = delegation_to_remove.amount as nat;
    let utoken_per_validator: u128 = utoken_to_distribute / (n as u128);
    let remainder: u128 = utoken_to_distribute % (n as u128);
    let ghost caps = deficit_under_target(d, utoken_to_distribute as nat);

    let mut new_redelegations: Vec<Redelegation> = Vec::new();
    let mut utoken_available: u128 = delegation_to_remove.amount;
    let mut i: usize = 0;
    while i < n
        invariant
            i <= n,
            n == current_delegations.len(),
            d == stake_views(current_delegations@),
            src == delegation_to_remove.validator@,
            moving == delegation_to_remove.amount,
            utoken_to_distribute == total_staked(d) + moving,
            caps == deficit_under_target(d, utoken_to_distribute as nat),
            utoken_per_validator == (utoken_to_distribute as nat) / (n as nat),
            remainder == (utoken_to_distribute as nat) % (n as nat),
            served_before(caps, moving, i as nat) <= moving,
            utoken_available == moving - served_before(caps, moving, i as nat),
            redelegation_views(new_redelegations@) == removal_upto(src, d, moving, i as nat),
        decreases n - i,
    {
        let extra: u128 = if (i as u128) < remainder {
            1
        } else {
            0
        };
        proof {
            lemma_target_at_most_total(utoken_to_distribute as nat, n as nat, i as nat);
        }
        let utoken_for_validator: u128 = utoken_per_validator + extra;
        let held: u128 = current_delegations[i].amount;
        let deficit: u128 = if held > utoken_for_validator {
            0
        } else {
            utoken_for_validator - held
        };
        assert(deficit == caps[i as int]);
        let utoken_to_redelegate: u128 = if deficit < utoken_available {
            deficit
        } else {
            utoken_available
        };
        assert(utoken_to_redelegate == redelegated_at(d, moving, i as nat));
        utoken_available = utoken_available - utoken_to_redelegate;
        if utoken_to_redelegate > 0 {
            let ghost before = new_redelegations@;
            new_redelegations.push(
                Redelegation {
                    src: delegation_to_remove.validator.clone(),
                    dst: current_delegations[i].validator.clone(),
                    amount: utoken_to_redelegate,
                },
            );
            assert(redelegation_views(new_redelegations@) =~= redelegation_views(before).push(
                RedelegationView {
                    src,
                    dst: d[i as int].validator,
                    amount: utoken_to_redelegate as nat,
                },
            ));
        }
        i += 1;
    }
    proof {
        lemma_removal_sum_and_bound(src, d, moving);
    }
    Ok(new_redelegations)
}

/// While the supply equals the total bonded, a deposit mints exactly as
/// many receipt tokens as it is large, and, unless both are zero, burning
/// shares releases exactly as many bonded tokens.
pub proof fn lemma_one_for_one_at_par(supply: nat, amount: nat)
    ensures
        mint_amount(supply, amount, supply) == amount,
        supply > 0 ==> unbond_amount(supply, amount, supply) == amount,
{
    if supply > 0 {
        assert((amount * supply) / supply == amount) by (nonlinear_arith)
            requires
                supply > 0,
        ;
    }
}

/// Burning right away what a deposit has minted never releases more than
/// was deposited, and falls short of the deposit by less than the value of
/// one receipt token plus one: with `m` tokens minted for `deposit`, the
/// `m` tokens are worth `v` afterwards, where `v <= deposit` and
/// `(deposit - v) * (supply + m) < bonded + supply + m`. In particular the
/// shortfall is at most one whenever `bonded <= supply + m`.
pub proof fn lemma_mint_then_unbond(supply: nat, deposit: nat, bonded: nat)
    requires
        supply > 0,
        bonded > 0,
    ensures
        ({
            let m = mint_amount(supply, deposit, bonded);
            let v = unbond_amount(supply + m, m, bonded + deposit);
            &&& v <= deposit
            &&& (deposit - v) * (supply + m) < bonded + supply + m
            &&& bonded <= supply + m ==> deposit - v <= 1
        }),
{
    let m = mint_amount(supply, deposit, bonded);
    let v = unbond_amount(supply + m, m, bonded + deposit);
    let x = deposit * supply;
    assert(m * bonded <= x < m * bonded + bonded) by (nonlinear_arith)
        requires
            m == x / bonded,
            bonded > 0,
            x >= 0,
    ;
    let y = m * (bonded + deposit);
    let t = supply + m;
    assert(v * t <= y < v * t + t) by (nonlinear_arith)
        requires
            v == y / t,
            t > 0,
            y >= 0,
    ;
    assert(v <= deposit && (deposit - v) * t < bonded + t) by (nonlinear_arith)
        requires
            m * bonded <= deposit * supply,
            deposit * supply < m * bonded + bonded,
            v * t <= y,
            y < v * t + t,
            y == m * (bonded + deposit),
            t == supply + m,
            t > 0,
    ;
    if bonded <= t {
        assert(deposit - v <= 1) by (nonlinear_arith)
            requires
                (deposit - v) * t < bonded + t,
                bonded <= t,
                t > 0,
        ;
    }
}

} // verus!
