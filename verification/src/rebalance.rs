use vstd::prelude::*;
use crate::error::HubError;
use crate::even_split::{lemma_target_at_most_total, lemma_targets_partition, target, targets_upto};
use crate::math::{
    lemma_moved_upto_prefix, moved_upto, redelegation_views, stake_views, staked_upto,
    total_delegated, total_moved, total_staked,
};
use crate::types::{Delegation, Redelegation, RedelegationView, StakeView};

verus! {

/// A transfer between two positions of a delegation list.
pub ghost struct Move {
    pub src: nat,
    pub dst: nat,
    pub amount: nat,
}

/// How far validator `k` lies above (positive) or below (negative) its even
/// share of `total`.
pub open spec fn surplus(d: Seq<StakeView>, total: nat, k: nat) -> int {
    d[k as int].amount - target(total, d.len(), k)
}

/// What validator `k` holds above its even share; zero past the end.
pub open spec fn excess_at(d: Seq<StakeView>, total: nat, k: nat) -> nat {
    if k < d.len() && surplus(d, total, k) > 0 {
        surplus(d, total, k) as nat
    } else {
        0
    }
}

/// What validator `k` lacks to its even share; zero past the end.
pub open spec fn shortfall_at(d: Seq<StakeView>, total: nat, k: nat) -> nat {
    if k < d.len() && surplus(d, total, k) < 0 {
        (-surplus(d, total, k)) as nat
    } else {
        0
    }
}

/// First position at or after `from` that holds more than its share, or the
/// length of the list when there is none.
pub open spec fn next_source(d: Seq<StakeView>, total: nat, from: nat) -> nat
    decreases d.len() - from,
{
    if from >= d.len() {
        d.len()
    } else if surplus(d, total, from) > 0 {
        from
    } else {
        next_source(d, total, from + 1)
    }
}

/// First position at or after `from` that holds less than its share, or the
/// length of the list when there is none.
pub open spec fn next_sink(d: Seq<StakeView>, total: nat, from: nat) -> nat
    decreases d.len() - from,
{
    if from >= d.len() {
        d.len()
    } else if surplus(d, total, from) < 0 {
        from
    } else {
        next_sink(d, total, from + 1)
    }
}

/// The search for the next source stays within the list, finds a source if
/// it stops early, and passes over none.
pub proof fn lemma_next_source(d: Seq<StakeView>, total: nat, from: nat)
    requires
        from <= d.len(),
    ensures
        from <= next_source(d, total, from) <= d.len(),
        next_source(d, total, from) < d.len() ==> surplus(d, total, next_source(d, total, from))
            > 0,
        forall|k: nat| from <= k < next_source(d, total, from) ==> surplus(d, total, k) <= 0,
    decreases d.len() - from,
{
    if from < d.len() && surplus(d, total, from) <= 0 {
        lemma_next_source(d, total, from + 1);
    }
}

/// The search for the next sink stays within the list, finds a sink if it
/// stops early, and passes over none.
pub proof fn lemma_next_sink(d: Seq<StakeView>, total: nat, from: nat)
    requires
        from <= d.len(),
    ensures
        from <= next_sink(d, total, from) <= d.len(),
        next_sink(d, total, from) < d.len() ==> surplus(d, total, next_sink(d, total, from)) < 0,
        forall|k: nat| from <= k < next_sink(d, total, from) ==> surplus(d, total, k) >= 0,
    decreases d.len() - from,
{
    if from < d.len() && surplus(d, total, from) >= 0 {
        lemma_next_sink(d, total, from + 1);
    }
}

/// The smaller of two amounts.
pub open spec fn smaller(a: nat, b: nat) -> nat {
    if a <= b {
        a
    } else {
        b
    }
}

/// The transfers still to be made when source `i` has `src_left` to give and
/// sink `j` has `dst_left` to receive: the smaller of the two amounts moves
/// from `i` to `j`; whichever side is thereby settled gives way to the next
/// source or sink in list order; and so on until either side runs out.
pub open spec fn moves_from(
    d: Seq<StakeView>,
    total: nat,
    i: nat,
    j: nat,
    src_left: nat,
    dst_left: nat,
) -> Seq<Move>
    decreases (d.len() - i) + (d.len() - j),
    via moves_from_terminates
{
    if i >= d.len() || j >= d.len() {
        Seq::empty()
    } else {
        let amount = smaller(src_left, dst_left);
        let i2 = if src_left == amount {
            next_source(d, total, i + 1)
        } else {
            i
        };
        let j2 = if dst_left == amount {
            next_sink(d, total, j + 1)
        } else {
            j
        };
        let src_left2 = if src_left == amount {
            excess_at(d, total, i2)
        } else {
            (src_left - amount) as nat
        };
        let dst_left2 = if dst_left == amount {
            shortfall_at(d, total, j2)
        } else {
            (dst_left - amount) as nat
        };
        seq![Move { src: i, dst: j, amount }] + moves_from(d, total, i2, j2, src_left2, dst_left2)
    }
}

#[via_fn]
proof fn moves_from_terminates(
    d: Seq<StakeView>,
    total: nat,
    i: nat,
    j: nat,
    src_left: nat,
    dst_left: nat,
) {
    if i < d.len() && j < d.len() {
        lemma_next_source(d, total, i + 1);
        lemma_next_sink(d, total, j + 1);
    }
}

/// The transfers that bring every validator of `d` to its even share of the
/// total bonded.
pub open spec fn rebalance_moves(d: Seq<StakeView>) -> Seq<Move> {
    let total = total_staked(d);
    let i = next_source(d, total, 0);
    let j = next_sink(d, total, 0);
    moves_from(d, total, i, j, excess_at(d, total, i), shortfall_at(d, total, j))
}

/// The redelegation that carries out one transfer.
pub open spec fn move_view(d: Seq<StakeView>, m: Move) -> RedelegationView {
    RedelegationView {
        src: d[m.src as int].validator,
        dst: d[m.dst as int].validator,
        amount: m.amount,
    }
}

/// The redelegations that carry out a list of transfers.
pub open spec fn move_views(d: Seq<StakeView>, moves: Seq<Move>) -> Seq<RedelegationView> {
    moves.map_values(|m: Move| move_view(d, m))
}

fn share_of(per_validator: u128, remainder: u128, i: usize, Ghost(total): Ghost<nat>, Ghost(n): Ghost<nat>) -> (r: u128)
    requires
        n > 0,
        total <= u128::MAX,
        per_validator == total / n,
        remainder == total % n,
    ensures
        r == target(total, n, i as nat),
{
    proof {
        lemma_target_at_most_total(total, n, i as nat);
    }
    if (i as u128) < remainder {
        per_validator + 1
    } else {
        per_validator
    }
}

fn find_source(
    delegations: &Vec<Delegation>,
    per_validator: u128,
    remainder: u128,
    from: usize,
    Ghost(total): Ghost<nat>,
) -> (r: usize)
    requires
        delegations@.len() > 0,
        from <= delegations@.len(),
        total <= u128::MAX,
        per_validator == total / (delegations@.len() as nat),
        remainder == total % (delegations@.len() as nat),
    ensures
        r == next_source(stake_views(delegations@), total, from as nat),
        from <= r <= delegations@.len(),
{
    let ghost d = stake_views(delegations@);
    let mut k: usize = from;
    while k < delegations.len()
        invariant
            from <= k <= delegations@.len(),
            delegations@.len() > 0,
            d == stake_views(delegations@),
            total <= u128::MAX,
            per_validator == total / (delegations@.len() as nat),
            remainder == total % (delegations@.len() as nat),
            next_source(d, total, from as nat) == next_source(d, total, k as nat),
        decreases delegations@.len() - k,
    {
        let share: u128 = share_of(per_validator, remainder, k, Ghost(total), Ghost(d.len()));
        if delegations[k].amount > share {
            return k;
        }
        k += 1;
    }
    k
}

fn find_sink(
    delegations: &Vec<Delegation>,
    per_validator: u128,
    remainder: u128,
    from: usize,
    Ghost(total): Ghost<nat>,
) -> (r: usize)
    requires
        delegations@.len() > 0,
        from <= delegations@.len(),
        total <= u128::MAX,
        per_validator == total / (delegations@.len() as nat),
        remainder == total % (delegations@.len() as nat),
    ensures
        r == next_sink(stake_views(delegations@), total, from as nat),
        from <= r <= delegations@.len(),
{
    let ghost d = stake_views(delegations@);
    let mut k: usize = from;
    while k < delegations.len()
        invariant
            from <= k <= delegations@.len(),
            delegations@.len() > 0,
            d == stake_views(delegations@),
            total <= u128::MAX,
            per_validator == total / (delegations@.len() as nat),
            remainder == total % (delegations@.len() as nat),
            next_sink(d, total, from as nat) == next_sink(d, total, k as nat),
        decreases delegations@.len() - k,
    {
        let share: u128 = share_of(per_validator, remainder, k, Ghost(total), Ghost(d.len()));
        if delegations[k].amount < share {
            return k;
        }
        k += 1;
    }
    k
}

fn excess_of(
    delegations: &Vec<Delegation>,
    per_validator: u128,
    remainder: u128,
    k: usize,
    Ghost(total): Ghost<nat>,
) -> (r: u128)
    requires
        delegations@.len() > 0,
        total <= u128::MAX,
        per_validator == total / (delegations@.len() as nat),
        remainder == total % (delegations@.len() as nat),
    ensures
        r == excess_at(stake_views(delegations@), total, k as nat),
{
    if k >= delegations.len() {
        return 0;
    }
    let share: u128 = share_of(
        per_validator,
        remainder,
        k,
        Ghost(total),
        Ghost(delegations@.len() as nat),
    );
    if delegations[k].amount > share {
        delegations[k].amount - share
    } else {
        0
    }
}

fn shortfall_of(
    delegations: &Vec<Delegation>,
    per_validator: u128,
    remainder: u128,
    k: usize,
    Ghost(total): Ghost<nat>,
) -> (r: u128)
    requires
        delegations@.len() > 0,
        total <= u128::MAX,
        per_validator == total / (delegations@.len() as nat),
        remainder == total % (delegations@.len() as nat),
    ensures
        r == shortfall_at(stake_views(delegations@), total, k as nat),
{
    if k >= delegations.len() {
        return 0;
    }
    let share: u128 = share_of(
        per_validator,
        remainder,
        k,
        Ghost(total),
        Ghost(delegations@.len() as nat),
    );
    if delegations[k].amount < share {
        share - delegations[k].amount
    } else {
        0
    }
}

/// Redelegations that bring every validator to its even share of the total
/// bonded: sources and sinks are paired off in list order.
///
/// Fails with `NoValidators` on an empty list and with `Overflow` when the
/// total bonded leaves the 128-bit range.
pub fn compute_redelegations_for_rebalancing(current_delegations: &Vec<Delegation>) -> (r: Result<
    Vec<Redelegation>,
    HubError,
>)
    ensures
        r is Ok <==> current_delegations@.len() > 0 && total_staked(
            stake_views(current_delegations@),
        ) <= u128::MAX,
        r matches Ok(v) ==> redelegation_views(v@) == move_views(
            stake_views(current_delegations@),
            rebalance_moves(stake_views(current_delegations@)),
        ) && total_moved(redelegation_views(v@)) <= total_staked(
            stake_views(current_delegations@),
        ),
        r matches Err(e) ==> e == if current_delegations@.len() == 0 {
            HubError::NoValidators
        } else {
            HubError::Overflow
        },
{
    let n: usize = current_delegations.len();
    if n == 0 {
        return Err(HubError::NoValidators);
    }
    let utoken_staked: u128 = match total_delegated(current_delegations) {
        Some(t) => t,
        None => {
            return Err(HubError::Overflow);
        },
    };
    let ghost d = stake_views(current_delegations@);
    let ghost total = utoken_staked as nat;
    let per: u128 = utoken_staked / (n as u128);
    let rem: u128 = utoken_staked % (n as u128);

    let mut i: usize = find_source(current_delegations, per, rem, 0, Ghost(total));
    let mut j: usize = find_sink(current_delegations, per, rem, 0, Ghost(total));
    let mut src_left: u128 = excess_of(current_delegations, per, rem, i, Ghost(total));
    let mut dst_left: u128 = shortfall_of(current_delegations, per, rem, j, Ghost(total));
    let mut new_redelegations: Vec<Redelegation> = Vec::new();
    let ghost mut done: Seq<Move> = Seq::empty();
    while i < n && j < n
        invariant
            n == current_delegations@.len(),
            n > 0,
            i <= n,
            j <= n,
            d == stake_views(current_delegations@),
            total == total_staked(d),
            total <= u128::MAX,
            per == total / (n as nat),
            rem == total % (n as nat),
            rebalance_moves(d) == done + moves_from(
                d,
                total,
                i as nat,
                j as nat,
                src_left as nat,
                dst_left as nat,
            ),
            redelegation_views(new_redelegations@) == move_views(d, done),
        decreases (n - i) + (n - j),
    {
        let amount: u128 = if src_left <= dst_left {
            src_left
        } else {
            dst_left
        };
        let ghost step = Move { src: i as nat, dst: j as nat, amount: amount as nat };
        let ghost before = new_redelegations@;
        let ghost rest_before = moves_from(
            d,
            total,
            i as nat,
            j as nat,
            src_left as nat,
            dst_left as nat,
        );
        new_redelegations.push(
            Redelegation {
                src: current_delegations[i].validator.clone(),
                dst: current_delegations[j].validator.clone(),
                amount,
            },
        );
        let src_done: bool = src_left == amount;
        let dst_done: bool = dst_left == amount;
        if src_done {
            i = find_source(current_delegations, per, rem, i + 1, Ghost(total));
            src_left = excess_of(current_delegations, per, rem, i, Ghost(total));
        } else {
            src_left = src_left - amount;
        }
        if dst_done {
            j = find_sink(current_delegations, per, rem, j + 1, Ghost(total));
            dst_left = shortfall_of(current_delegations, per, rem, j, Ghost(total));
        } else {
            dst_left = dst_left - amount;
        }
        proof {
            let rest_after = moves_from(
                d,
                total,
                i as nat,
                j as nat,
                src_left as nat,
                dst_left as nat,
            );
            assert(rest_before == seq![step] + rest_after);
            assert(done + rest_before =~= done.push(step) + rest_after);
            assert(redelegation_views(new_redelegations@) =~= redelegation_views(before).push(
                move_view(d, step),
            ));
            assert(move_views(d, done.push(step)) =~= move_views(d, done).push(move_view(d, step)));
            done = done.push(step);
        }
    }
    proof {
        assert(done + Seq::<Move>::empty() =~= done);
        lemma_rebalance_moves_proper(d);
    }
    Ok(new_redelegations)
}

/// The amounts of a delegation list, as integers.
pub open spec fn amounts(d: Seq<StakeView>) -> Seq<int> {
    Seq::new(d.len(), |k: int| d[k].amount as int)
}

/// The amounts after one transfer has been carried out.
pub open spec fn apply_move(a: Seq<int>, m: Move) -> Seq<int> {
    let taken = a.update(m.src as int, a[m.src as int] - m.amount);
    taken.update(m.dst as int, taken[m.dst as int] + m.amount)
}

/// The amounts after a list of transfers has been carried out in order.
pub open spec fn apply_moves(a: Seq<int>, moves: Seq<Move>) -> Seq<int>
    decreases moves.len(),
{
    if moves.len() == 0 {
        a
    } else {
        apply_moves(apply_move(a, moves[0]), moves.drop_first())
    }
}

spec fn sum_upto(a: Seq<int>, i: nat) -> int
    decreases i,
{
    if i == 0 {
        0
    } else {
        sum_upto(a, (i - 1) as nat) + a[i - 1]
    }
}

proof fn lemma_sum_update(a: Seq<int>, x: int, v: int, i: nat)
    requires
        0 <= x < a.len(),
        i <= a.len(),
    ensures
        sum_upto(a.update(x, v), i) == sum_upto(a, i) + if x < i {
            v - a[x]
        } else {
            0
        },
    decreases i,
{
    if i > 0 {
        lemma_sum_update(a, x, v, (i - 1) as nat);
    }
}

proof fn lemma_sum_amounts(d: Seq<StakeView>, i: nat)
    requires
        i <= d.len(),
    ensures
        sum_upto(amounts(d), i) == staked_upto(d, i),
    decreases i,
{
    if i > 0 {
        lemma_sum_amounts(d, (i - 1) as nat);
    }
}

proof fn lemma_below_targets(a: Seq<int>, total: nat, n: nat, i: nat)
    requires
        i <= a.len(),
        forall|k: int| 0 <= k < i ==> a[k] <= target(total, n, k as nat),
    ensures
        sum_upto(a, i) <= targets_upto(total, n, i),
        sum_upto(a, i) == targets_upto(total, n, i) ==> forall|k: int|
            0 <= k < i ==> a[k] == target(total, n, k as nat),
    decreases i,
{
    if i > 0 {
        lemma_below_targets(a, total, n, (i - 1) as nat);
    }
}

proof fn lemma_above_targets(a: Seq<int>, total: nat, n: nat, i: nat)
    requires
        i <= a.len(),
        forall|k: int| 0 <= k < i ==> a[k] >= target(total, n, k as nat),
    ensures
        sum_upto(a, i) >= targets_upto(total, n, i),
        sum_upto(a, i) == targets_upto(total, n, i) ==> forall|k: int|
            0 <= k < i ==> a[k] == target(total, n, k as nat),
    decreases i,
{
    if i > 0 {
        lemma_above_targets(a, total, n, (i - 1) as nat);
    }
}

/// The state between two transfers: sources before `i` and sinks before `j`
/// are at their share, `i` and `j` have `src_left` and `dst_left` to go, the
/// others are untouched, and nothing has been lost.
spec fn in_progress(
    d: Seq<StakeView>,
    i: nat,
    j: nat,
    src_left: nat,
    dst_left: nat,
    cur: Seq<int>,
) -> bool {
    let n = d.len();
    let total = total_staked(d);
    &&& cur.len() == n
    &&& i <= n
    &&& j <= n
    &&& sum_upto(cur, n) == total
    &&& i < n ==> 0 < src_left <= surplus(d, total, i) && cur[i as int] == target(total, n, i)
        + src_left
    &&& j < n ==> 0 < dst_left <= -surplus(d, total, j) && cur[j as int] == target(total, n, j)
        - dst_left
    &&& forall|k: nat|
        k < n && k != i && k != j ==> #[trigger] cur[k as int] == if (surplus(d, total, k) > 0 && k
            > i) || (surplus(d, total, k) < 0 && k > j) {
            d[k as int].amount as int
        } else {
            target(total, n, k) as int
        }
}

spec fn settled(d: Seq<StakeView>, cur: Seq<int>) -> bool {
    &&& cur.len() == d.len()
    &&& forall|k: int|
        0 <= k < d.len() ==> #[trigger] cur[k] == target(total_staked(d), d.len(), k as nat)
}

proof fn lemma_moves_settle(
    d: Seq<StakeView>,
    i: nat,
    j: nat,
    src_left: nat,
    dst_left: nat,
    cur: Seq<int>,
)
    requires
        d.len() > 0,
        in_progress(d, i, j, src_left, dst_left, cur),
    ensures
        settled(
            d,
            apply_moves(cur, moves_from(d, total_staked(d), i, j, src_left, dst_left)),
        ),
    decreases (d.len() - i) + (d.len() - j),
{
    let n = d.len();
    let total = total_staked(d);
    lemma_targets_partition(total, n);
    if i >= n {
        assert forall|k: int| 0 <= k < n implies cur[k] <= target(total, n, k as nat) by {
            let kk = k as nat;
            assert(cur[kk as int] == cur[k]);
        }
        lemma_below_targets(cur, total, n, n);
    } else if j >= n {
        assert forall|k: int| 0 <= k < n implies cur[k] >= target(total, n, k as nat) by {
            let kk = k as nat;
            assert(cur[kk as int] == cur[k]);
        }
        lemma_above_targets(cur, total, n, n);
    } else {
        let amount = smaller(src_left, dst_left);
        let step = Move { src: i, dst: j, amount };
        let i2 = if src_left == amount {
            next_source(d, total, i + 1)
        } else {
            i
        };
        let j2 = if dst_left == amount {
            next_sink(d, total, j + 1)
        } else {
            j
        };
        let src_left2 = if src_left == amount {
            excess_at(d, total, i2)
        } else {
            (src_left - amount) as nat
        };
        let dst_left2 = if dst_left == amount {
            shortfall_at(d, total, j2)
        } else {
            (dst_left - amount) as nat
        };
        lemma_next_source(d, total, i + 1);
        lemma_next_sink(d, total, j + 1);
        let taken = cur.update(i as int, cur[i as int] - amount);
        let cur2 = apply_move(cur, step);
        lemma_sum_update(cur, i as int, cur[i as int] - amount, n);
        lemma_sum_update(taken, j as int, taken[j as int] + amount, n);
        assert(in_progress(d, i2, j2, src_left2, dst_left2, cur2)) by {
            assert forall|k: nat| k < n && k != i2 && k != j2 implies #[trigger] cur2[k as int]
                == if (surplus(d, total, k) > 0 && k > i2) || (surplus(d, total, k) < 0 && k
                > j2) {
                d[k as int].amount as int
            } else {
                target(total, n, k) as int
            } by {
                if k != i && k != j {
                    assert(cur2[k as int] == cur[k as int]);
                }
            }
            if i2 < n && i2 != i {
                assert(cur2[i2 as int] == cur[i2 as int]);
            }
            if j2 < n && j2 != j {
                assert(cur2[j2 as int] == cur[j2 as int]);
            }
        }
        lemma_moves_settle(d, i2, j2, src_left2, dst_left2, cur2);
        let rest = moves_from(d, total, i2, j2, src_left2, dst_left2);
        let all = moves_from(d, total, i, j, src_left, dst_left);
        assert(all == seq![step] + rest);
        assert(all[0] == step);
        assert(all.drop_first() =~= rest);
    }
}

/// Sum of what the positions from `from` on hold above their share.
pub open spec fn excess_from(d: Seq<StakeView>, total: nat, from: nat) -> nat
    decreases d.len() - from,
{
    if from >= d.len() {
        0
    } else {
        excess_at(d, total, from) + excess_from(d, total, from + 1)
    }
}

proof fn lemma_excess_from_skips(d: Seq<StakeView>, total: nat, from: nat)
    requires
        from <= d.len(),
    ensures
        excess_from(d, total, from) == excess_from(d, total, next_source(d, total, from)),
    decreases d.len() - from,
{
    if from < d.len() && surplus(d, total, from) <= 0 {
        lemma_excess_from_skips(d, total, from + 1);
    }
}

proof fn lemma_excess_from_bound(d: Seq<StakeView>, total: nat, from: nat)
    requires
        from <= d.len(),
    ensures
        excess_from(d, total, from) + staked_upto(d, from) <= total_staked(d),
    decreases d.len() - from,
{
    if from < d.len() {
        lemma_excess_from_bound(d, total, from + 1);
    }
}

proof fn lemma_total_moved_cons(x: RedelegationView, rest: Seq<RedelegationView>)
    ensures
        total_moved(seq![x] + rest) == x.amount + total_moved(rest),
    decreases rest.len(),
{
    let all = seq![x] + rest;
    if rest.len() == 0 {
        assert(all =~= seq![x]);
        assert(moved_upto(all, 1) == moved_upto(all, 0) + all[0].amount);
    } else {
        let shorter = rest.drop_last();
        let len = rest.len();
        lemma_total_moved_cons(x, shorter);
        lemma_moved_upto_prefix(all, seq![x] + shorter, len);
        lemma_moved_upto_prefix(rest, shorter, (len - 1) as nat);
        assert(all[len as int] == rest[len - 1]);
    }
}

/// Whether every transfer moves a positive amount from a validator above
/// its share to one below it.
pub open spec fn moves_are_proper(d: Seq<StakeView>, total: nat, moves: Seq<Move>) -> bool {
    forall|k: int|
        0 <= k < moves.len() ==> {
            let m = #[trigger] moves[k];
            &&& m.amount > 0
            &&& m.src < d.len()
            &&& m.dst < d.len()
            &&& surplus(d, total, m.src) > 0
            &&& surplus(d, total, m.dst) < 0
        }
}

/// Sum of what the positions from `from` on lack to their share.
pub open spec fn shortfall_from(d: Seq<StakeView>, total: nat, from: nat) -> nat
    decreases d.len() - from,
{
    if from >= d.len() {
        0
    } else {
        shortfall_at(d, total, from) + shortfall_from(d, total, from + 1)
    }
}

proof fn lemma_shortfall_from_skips(d: Seq<StakeView>, total: nat, from: nat)
    requires
        from <= d.len(),
    ensures
        shortfall_from(d, total, from) == shortfall_from(d, total, next_sink(d, total, from)),
    decreases d.len() - from,
{
    if from < d.len() && surplus(d, total, from) >= 0 {
        lemma_shortfall_from_skips(d, total, from + 1);
    }
}

proof fn lemma_excess_matches_shortfall(d: Seq<StakeView>, total: nat, from: nat)
    requires
        from <= d.len(),
    ensures
        excess_from(d, total, from) + staked_upto(d, from) + targets_upto(total, d.len(), d.len())
            == shortfall_from(d, total, from) + total_staked(d) + targets_upto(
            total,
            d.len(),
            from,
        ),
    decreases d.len() - from,
{
    if from < d.len() {
        lemma_excess_matches_shortfall(d, total, from + 1);
    }
}

/// What is still to be moved out of source `i` and the sources after it.
spec fn sources_left(d: Seq<StakeView>, total: nat, i: nat, src_left: nat) -> nat {
    if i < d.len() {
        src_left + excess_from(d, total, i + 1)
    } else {
        0
    }
}

/// What is still to be moved to sink `j` and the sinks after it.
spec fn sinks_left(d: Seq<StakeView>, total: nat, j: nat, dst_left: nat) -> nat {
    if j < d.len() {
        dst_left + shortfall_from(d, total, j + 1)
    } else {
        0
    }
}

proof fn lemma_moves_bounded(
    d: Seq<StakeView>,
    total: nat,
    i: nat,
    j: nat,
    src_left: nat,
    dst_left: nat,
)
    requires
        i <= d.len(),
        j <= d.len(),
        i < d.len() ==> surplus(d, total, i) > 0 && src_left > 0,
        j < d.len() ==> surplus(d, total, j) < 0 && dst_left > 0,
        sources_left(d, total, i, src_left) == sinks_left(d, total, j, dst_left),
    ensures
        moves_are_proper(d, total, moves_from(d, total, i, j, src_left, dst_left)),
        total_moved(move_views(d, moves_from(d, total, i, j, src_left, dst_left)))
            == sources_left(d, total, i, src_left),
    decreases (d.len() - i) + (d.len() - j),
{
    let n = d.len();
    let all = moves_from(d, total, i, j, src_left, dst_left);
    if i >= n || j >= n {
        assert(move_views(d, all) =~= Seq::<RedelegationView>::empty());
    } else {
        let amount = smaller(src_left, dst_left);
        let step = Move { src: i, dst: j, amount };
        let i2 = if src_left == amount {
            next_source(d, total, i + 1)
        } else {
            i
        };
        let j2 = if dst_left == amount {
            next_sink(d, total, j + 1)
        } else {
            j
        };
        let src_left2 = if src_left == amount {
            excess_at(d, total, i2)
        } else {
            (src_left - amount) as nat
        };
        let dst_left2 = if dst_left == amount {
            shortfall_at(d, total, j2)
        } else {
            (dst_left - amount) as nat
        };
        lemma_next_source(d, total, i + 1);
        lemma_next_sink(d, total, j + 1);
        lemma_excess_from_skips(d, total, i + 1);
        lemma_shortfall_from_skips(d, total, j + 1);
        assert(sources_left(d, total, i2, src_left2) + amount == sources_left(
            d,
            total,
            i,
            src_left,
        ));
        assert(sinks_left(d, total, j2, dst_left2) + amount == sinks_left(d, total, j, dst_left));
        lemma_moves_bounded(d, total, i2, j2, src_left2, dst_left2);
        let rest = moves_from(d, total, i2, j2, src_left2, dst_left2);
        assert(all == seq![step] + rest);
        assert forall|k: int| 0 <= k < all.len() implies {
            let m = #[trigger] all[k];
            &&& m.amount > 0
            &&& m.src < d.len()
            &&& m.dst < d.len()
            &&& surplus(d, total, m.src) > 0
            &&& surplus(d, total, m.dst) < 0
        } by {
            if k > 0 {
                assert(all[k] == rest[k - 1]);
            }
        }
        assert(move_views(d, all) =~= seq![move_view(d, step)] + move_views(d, rest));
        lemma_total_moved_cons(move_view(d, step), move_views(d, rest));
    }
}

/// The rebalancing transfers each move a positive amount from a validator
/// above its share to one below it, and together they move exactly what
/// the validators hold above their shares: no plan that reaches the shares
/// can move less.
pub proof fn lemma_rebalance_moves_proper(d: Seq<StakeView>)
    ensures
        moves_are_proper(d, total_staked(d), rebalance_moves(d)),
        total_moved(move_views(d, rebalance_moves(d))) == excess_from(d, total_staked(d), 0),
        total_moved(move_views(d, rebalance_moves(d))) <= total_staked(d),
{
    let total = total_staked(d);
    let i = next_source(d, total, 0);
    let j = next_sink(d, total, 0);
    lemma_next_source(d, total, 0);
    lemma_next_sink(d, total, 0);
    lemma_excess_from_skips(d, total, 0);
    lemma_shortfall_from_skips(d, total, 0);
    lemma_excess_matches_shortfall(d, total, 0);
    lemma_excess_from_bound(d, total, 0);
    if d.len() > 0 {
        lemma_targets_partition(total, d.len());
        assert(excess_from(d, total, 0) == shortfall_from(d, total, 0));
    } else {
        assert(excess_from(d, total, 0) == shortfall_from(d, total, 0));
    }
    lemma_moves_bounded(d, total, i, j, excess_at(d, total, i), shortfall_at(d, total, j));
}

/// Carrying out the rebalancing transfers leaves every validator with
/// exactly its even share of the total, so that no two validators differ by
/// more than one.
pub proof fn lemma_rebalance_levels(d: Seq<StakeView>)
    requires
        d.len() > 0,
    ensures
        apply_moves(amounts(d), rebalance_moves(d)).len() == d.len(),
        forall|k: int|
            0 <= k < d.len() ==> #[trigger] apply_moves(amounts(d), rebalance_moves(d))[k]
                == target(total_staked(d), d.len(), k as nat),
        forall|a: int, b: int|
            0 <= a < d.len() && 0 <= b < d.len() ==> #[trigger] apply_moves(
                amounts(d),
                rebalance_moves(d),
            )[a] <= #[trigger] apply_moves(amounts(d), rebalance_moves(d))[b] + 1,
{
    let n = d.len();
    let total = total_staked(d);
    let i = next_source(d, total, 0);
    let j = next_sink(d, total, 0);
    lemma_next_source(d, total, 0);
    lemma_next_sink(d, total, 0);
    lemma_sum_amounts(d, n);
    lemma_targets_partition(total, n);
    let cur = amounts(d);
    assert(in_progress(d, i, j, excess_at(d, total, i), shortfall_at(d, total, j), cur)) by {
        assert forall|k: nat| k < n && k != i && k != j implies #[trigger] cur[k as int] == if (
        surplus(d, total, k) > 0 && k > i) || (surplus(d, total, k) < 0 && k > j) {
            d[k as int].amount as int
        } else {
            target(total, n, k) as int
        } by {
            assert(cur[k as int] == d[k as int].amount);
            if surplus(d, total, k) > 0 {
                assert(k > i);
            } else if surplus(d, total, k) < 0 {
                assert(k > j);
            }
        }
    }
    lemma_moves_settle(d, i, j, excess_at(d, total, i), shortfall_at(d, total, j), cur);
    let after = apply_moves(amounts(d), rebalance_moves(d));
    assert(settled(d, after));
    assert forall|a: int, b: int| 0 <= a < d.len() && 0 <= b < d.len() implies #[trigger] after[a]
        <= #[trigger] after[b] + 1 by {
        assert(target(total, n, a as nat) <= target(total, n, b as nat) + 1);
    }
}

} // verus!
