use vstd::prelude::*;
use crate::math::{lemma_staked_upto_monotonic, staked_upto, total_staked};
use crate::types::StakeView;

verus! {

/// What an amount holds above a level.
pub open spec fn above_level(amount: nat, level: nat) -> nat {
    if amount > level {
        (amount - level) as nat
    } else {
        0
    }
}

/// What the first `i` validators hold above a level, taken together.
pub open spec fn excess_above_upto(d: Seq<StakeView>, level: nat, i: nat) -> nat
    decreases i,
{
    if i == 0 {
        0
    } else {
        excess_above_upto(d, level, (i - 1) as nat) + above_level(d[i - 1].amount, level)
    }
}

/// What all validators hold above a level, taken together.
pub open spec fn excess_above(d: Seq<StakeView>, level: nat) -> nat {
    excess_above_upto(d, level, d.len())
}

/// How many of the first `i` validators hold more than a level.
pub open spec fn count_above_upto(d: Seq<StakeView>, level: nat, i: nat) -> nat
    decreases i,
{
    if i == 0 {
        0
    } else {
        count_above_upto(d, level, (i - 1) as nat) + if d[i - 1].amount > level {
            1nat
        } else {
            0nat
        }
    }
}

/// Whether `level` is the level down to which the largest delegations have
/// to be lowered to release `unbond`: lowering them to it releases enough,
/// lowering them to the next higher level does not.
pub open spec fn is_unbond_level(d: Seq<StakeView>, unbond: nat, level: nat) -> bool {
    excess_above(d, level) >= unbond && excess_above(d, level + 1) < unbond
}

/// The level down to which the largest delegations are lowered to release
/// `unbond`.
pub open spec fn unbond_level(d: Seq<StakeView>, unbond: nat) -> nat {
    choose|level: nat| is_unbond_level(d, unbond, level)
}

/// What lowering to the level releases beyond `unbond`: so many validators
/// stay one above the level.
pub open spec fn spare_at_level(d: Seq<StakeView>, unbond: nat) -> nat {
    (excess_above(d, unbond_level(d, unbond)) - unbond) as nat
}

/// Amount withdrawn from validator `i` when `unbond` is taken out of `d`:
/// what it holds above the level, less one for the first validators above
/// the level as long as there is anything to spare.
pub open spec fn undelegated_at(d: Seq<StakeView>, unbond: nat, i: nat) -> nat {
    if unbond == 0 {
        0
    } else {
        let level = unbond_level(d, unbond);
        let above = above_level(d[i as int].amount, level);
        if above > 0 && count_above_upto(d, level, i) < spare_at_level(d, unbond) {
            (above - 1) as nat
        } else {
            above
        }
    }
}

/// The undelegations of the first `i` validators, empty ones left out.
pub open spec fn undelegations_upto(d: Seq<StakeView>, unbond: nat, i: nat) -> Seq<StakeView>
    decreases i,
{
    if i == 0 {
        Seq::empty()
    } else {
        let before = undelegations_upto(d, unbond, (i - 1) as nat);
        let amount = undelegated_at(d, unbond, (i - 1) as nat);
        if amount > 0 {
            before.push(StakeView { validator: d[i - 1].validator, amount })
        } else {
            before
        }
    }
}

/// Raising the level by one lowers the excess by one for each validator
/// above the level.
pub proof fn lemma_excess_step(d: Seq<StakeView>, level: nat, i: nat)
    ensures
        excess_above_upto(d, level, i) == excess_above_upto(d, level + 1, i) + count_above_upto(
            d,
            level,
            i,
        ),
    decreases i,
{
    if i > 0 {
        lemma_excess_step(d, level, (i - 1) as nat);
    }
}

/// A higher level leaves less above it.
pub proof fn lemma_excess_monotonic(d: Seq<StakeView>, low: nat, high: nat, i: nat)
    requires
        low <= high,
    ensures
        excess_above_upto(d, high, i) <= excess_above_upto(d, low, i),
    decreases i,
{
    if i > 0 {
        lemma_excess_monotonic(d, low, high, (i - 1) as nat);
    }
}

/// Everything lies above level zero.
pub proof fn lemma_excess_at_zero(d: Seq<StakeView>, i: nat)
    ensures
        excess_above_upto(d, 0, i) == staked_upto(d, i),
    decreases i,
{
    if i > 0 {
        lemma_excess_at_zero(d, (i - 1) as nat);
    }
}

/// No more lies above a level than is held at all.
pub proof fn lemma_excess_within_total(d: Seq<StakeView>, level: nat, i: nat)
    requires
        i <= d.len(),
    ensures
        excess_above_upto(d, level, i) <= staked_upto(d, i) <= total_staked(d),
{
    lemma_excess_monotonic(d, 0, level, i);
    lemma_excess_at_zero(d, i);
    lemma_staked_upto_monotonic(d, i, d.len());
}

proof fn lemma_excess_vanishes(d: Seq<StakeView>, level: nat, i: nat)
    requires
        i <= d.len(),
        level >= total_staked(d),
    ensures
        excess_above_upto(d, level, i) == 0,
    decreases i,
{
    if i > 0 {
        lemma_excess_vanishes(d, level, (i - 1) as nat);
        lemma_staked_upto_monotonic(d, i, d.len());
    }
}

/// At most one level fits.
pub proof fn lemma_level_unique(d: Seq<StakeView>, unbond: nat, a: nat, b: nat)
    requires
        is_unbond_level(d, unbond, a),
        is_unbond_level(d, unbond, b),
    ensures
        a == b,
{
    if a < b {
        lemma_excess_monotonic(d, a + 1, b, d.len());
    } else if b < a {
        lemma_excess_monotonic(d, b + 1, a, d.len());
    }
}

/// A level that fits is the level.
pub proof fn lemma_level_is_chosen(d: Seq<StakeView>, unbond: nat, level: nat)
    requires
        is_unbond_level(d, unbond, level),
    ensures
        unbond_level(d, unbond) == level,
{
    lemma_level_unique(d, unbond, level, unbond_level(d, unbond));
}

proof fn lemma_level_between(d: Seq<StakeView>, unbond: nat, low: nat, high: nat)
    requires
        low < high,
        excess_above(d, low) >= unbond,
        excess_above(d, high) < unbond,
    ensures
        is_unbond_level(d, unbond, unbond_level(d, unbond)),
    decreases high - low,
{
    if excess_above(d, low + 1) < unbond {
        assert(is_unbond_level(d, unbond, low));
    } else {
        lemma_level_between(d, unbond, low + 1, high);
    }
}

/// Whenever something, but no more than is bonded, is to be released,
/// there is a level that fits.
pub proof fn lemma_level_exists(d: Seq<StakeView>, unbond: nat)
    requires
        0 < unbond <= total_staked(d),
    ensures
        is_unbond_level(d, unbond, unbond_level(d, unbond)),
        unbond_level(d, unbond) < total_staked(d),
{
    lemma_excess_at_zero(d, d.len());
    lemma_excess_vanishes(d, total_staked(d), d.len());
    lemma_level_between(d, unbond, 0, total_staked(d));
    let level = unbond_level(d, unbond);
    if level >= total_staked(d) {
        lemma_excess_vanishes(d, level, d.len());
    }
}

proof fn lemma_staked_upto_agrees(a: Seq<StakeView>, b: Seq<StakeView>, i: nat)
    requires
        i <= a.len(),
        i <= b.len(),
        forall|k: int| 0 <= k < i ==> a[k].amount == b[k].amount,
    ensures
        staked_upto(a, i) == staked_upto(b, i),
    decreases i,
{
    if i > 0 {
        lemma_staked_upto_agrees(a, b, (i - 1) as nat);
    }
}

proof fn lemma_undelegations_total_upto(d: Seq<StakeView>, unbond: nat, i: nat)
    requires
        i <= d.len(),
        unbond > 0,
    ensures
        total_staked(undelegations_upto(d, unbond, i)) + (if count_above_upto(
            d,
            unbond_level(d, unbond),
            i,
        ) <= spare_at_level(d, unbond) {
            count_above_upto(d, unbond_level(d, unbond), i)
        } else {
            spare_at_level(d, unbond)
        }) == excess_above_upto(d, unbond_level(d, unbond), i),
    decreases i,
{
    if i > 0 {
        lemma_undelegations_total_upto(d, unbond, (i - 1) as nat);
        let before = undelegations_upto(d, unbond, (i - 1) as nat);
        let now = undelegations_upto(d, unbond, i);
        if undelegated_at(d, unbond, (i - 1) as nat) > 0 {
            lemma_staked_upto_agrees(before, now, before.len());
        }
    }
}

/// Releasing nothing takes nothing from anybody.
pub proof fn lemma_nothing_undelegated(d: Seq<StakeView>, i: nat)
    ensures
        undelegations_upto(d, 0, i) == Seq::<StakeView>::empty(),
    decreases i,
{
    if i > 0 {
        lemma_nothing_undelegated(d, (i - 1) as nat);
    }
}

/// The undelegations computed for `unbond` add up to exactly `unbond`, and
/// no validator gives up more than it holds. What remains bonded is as even
/// as it can be: every validator that gives something up is left with the
/// level or one more, and no validator is left with more than that.
pub proof fn lemma_undelegations_sum_and_bound(d: Seq<StakeView>, unbond: nat)
    requires
        unbond <= total_staked(d),
    ensures
        total_staked(undelegations_upto(d, unbond, d.len())) == unbond,
        forall|i: nat|
            i < d.len() ==> #[trigger] undelegated_at(d, unbond, i) <= d[i as int].amount,
        unbond > 0 ==> forall|i: nat|
            i < d.len() ==> d[i as int].amount - #[trigger] undelegated_at(d, unbond, i)
                <= unbond_level(d, unbond) + 1,
        unbond > 0 ==> forall|i: nat|
            i < d.len() && #[trigger] undelegated_at(d, unbond, i) > 0 ==> d[i as int].amount
                - undelegated_at(d, unbond, i) >= unbond_level(d, unbond),
{
    if unbond == 0 {
        lemma_nothing_undelegated(d, d.len());
    } else {
        lemma_level_exists(d, unbond);
        let level = unbond_level(d, unbond);
        lemma_excess_step(d, level, d.len());
        lemma_undelegations_total_upto(d, unbond, d.len());
    }
}

/// Sum of the first `i` entries of a list of amounts.
pub open spec fn amounts_upto(a: Seq<nat>, i: nat) -> nat
    decreases i,
{
    if i == 0 {
        0
    } else {
        amounts_upto(a, (i - 1) as nat) + a[i - 1]
    }
}

/// Whether `split` takes `unbond` out of `d` without taking from anybody
/// more than it holds.
pub open spec fn is_split(d: Seq<StakeView>, unbond: nat, split: Seq<nat>) -> bool {
    &&& split.len() == d.len()
    &&& forall|i: int| 0 <= i < d.len() ==> #[trigger] split[i] <= d[i].amount
    &&& amounts_upto(split, split.len()) == unbond
}

proof fn lemma_split_covers_excess(d: Seq<StakeView>, split: Seq<nat>, bound: nat, i: nat)
    requires
        i <= d.len(),
        split.len() == d.len(),
        forall|k: int| 0 <= k < d.len() ==> #[trigger] split[k] <= d[k].amount,
        forall|k: int| 0 <= k < d.len() ==> d[k].amount - #[trigger] split[k] <= bound,
    ensures
        amounts_upto(split, i) >= excess_above_upto(d, bound, i),
    decreases i,
{
    if i > 0 {
        lemma_split_covers_excess(d, split, bound, (i - 1) as nat);
        assert(d[i - 1].amount - split[i - 1] <= bound);
    }
}

proof fn lemma_none_above(d: Seq<StakeView>, level: nat, i: nat)
    requires
        i <= d.len(),
        count_above_upto(d, level, i) == 0,
    ensures
        forall|k: int| 0 <= k < i ==> (#[trigger] d[k]).amount <= level,
    decreases i,
{
    if i > 0 {
        lemma_none_above(d, level, (i - 1) as nat);
    }
}

/// No other way of taking `unbond` out of `d` leaves a smaller largest
/// delegation: whatever bound another split keeps every validator under,
/// the computed one keeps every validator under it too.
pub proof fn lemma_undelegations_level_best(
    d: Seq<StakeView>,
    unbond: nat,
    other: Seq<nat>,
    bound: nat,
)
    requires
        is_split(d, unbond, other),
        forall|k: int| 0 <= k < d.len() ==> d[k].amount - #[trigger] other[k] <= bound,
    ensures
        forall|i: nat|
            i < d.len() ==> d[i as int].amount - #[trigger] undelegated_at(d, unbond, i)
                <= bound,
{
    let n = d.len();
    lemma_split_covers_excess(d, other, bound, n);
    if unbond == 0 {
        lemma_excess_step(d, bound, n);
        lemma_excess_monotonic(d, bound, bound + 1, n);
        lemma_none_above(d, bound, n);
    } else {
        lemma_excess_within_total(d, bound, n);
        assert(unbond <= total_staked(d)) by {
            lemma_split_within_total(d, other, n);
        }
        lemma_undelegations_sum_and_bound(d, unbond);
        lemma_level_exists(d, unbond);
        let level = unbond_level(d, unbond);
        if bound <= level {
            lemma_excess_monotonic(d, bound, level, n);
            assert(excess_above(d, level) == unbond);
            assert(spare_at_level(d, unbond) == 0);
            if bound < level {
                lemma_excess_step(d, bound, n);
                lemma_excess_monotonic(d, bound + 1, level, n);
                lemma_none_above(d, bound, n);
            }
        }
    }
}

proof fn lemma_split_within_total(d: Seq<StakeView>, split: Seq<nat>, i: nat)
    requires
        i <= d.len(),
        split.len() == d.len(),
        forall|k: int| 0 <= k < d.len() ==> #[trigger] split[k] <= d[k].amount,
    ensures
        amounts_upto(split, i) <= staked_upto(d, i),
    decreases i,
{
    if i > 0 {
        lemma_split_within_total(d, split, (i - 1) as nat);
    }
}

} // verus!
