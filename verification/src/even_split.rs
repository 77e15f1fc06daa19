use vstd::prelude::*;
use vstd::arithmetic::div_mod::lemma_fundamental_div_mod;

verus! {

/// Share of position `i` when `total` is split over `n` positions as evenly
/// as whole numbers allow: every position gets `total / n`, and the first
/// `total % n` positions get one more.
pub open spec fn target(total: nat, n: nat, i: nat) -> nat {
    total / n + if i < total % n {
        1nat
    } else {
        0nat
    }
}

/// Sum of the shares of the first `i` positions.
pub open spec fn targets_upto(total: nat, n: nat, i: nat) -> nat
    decreases i,
{
    if i == 0 {
        0
    } else {
        targets_upto(total, n, (i - 1) as nat) + target(total, n, (i - 1) as nat)
    }
}

proof fn lemma_targets_upto_closed_form(total: nat, n: nat, i: nat)
    requires
        n > 0,
    ensures
        targets_upto(total, n, i) == i * (total / n) + if i <= total % n {
            i
        } else {
            total % n
        },
    decreases i,
{
    let q = total / n;
    if i > 0 {
        let h = (i - 1) as nat;
        lemma_targets_upto_closed_form(total, n, h);
        assert(h * q + q == i * q) by (nonlinear_arith)
            requires
                h + 1 == i,
        ;
    } else {
        assert(i * q == 0) by (nonlinear_arith)
            requires
                i == 0,
        ;
    }
}

/// The shares of all `n` positions add up to `total`, and two shares never
/// differ by more than one.
pub proof fn lemma_targets_partition(total: nat, n: nat)
    requires
        n > 0,
    ensures
        targets_upto(total, n, n) == total,
        forall|i: nat, j: nat|
            #![trigger target(total, n, i), target(total, n, j)]
            target(total, n, i) <= target(total, n, j) + 1,
{
    lemma_targets_upto_closed_form(total, n, n);
    lemma_fundamental_div_mod(total as int, n as int);
    assert(total % n < n) by (nonlinear_arith)
        requires
            n > 0,
    ;
    let q = total / n;
    assert(n * q == q * n) by (nonlinear_arith);
}

/// No share exceeds the total.
pub proof fn lemma_target_at_most_total(total: nat, n: nat, i: nat)
    requires
        n > 0,
    ensures
        target(total, n, i) <= total,
{
    lemma_fundamental_div_mod(total as int, n as int);
    let q = total / n;
    let r = total % n;
    assert(0 <= r < n && 0 <= q) by (nonlinear_arith)
        requires
            n > 0,
            q == total / n,
            r == total % n,
    ;
    assert(n * q >= q) by (nonlinear_arith)
        requires
            n >= 1,
            q >= 0,
    ;
}

/// Sum of the first `i` capacities.
pub open spec fn caps_upto(caps: Seq<nat>, i: nat) -> nat
    decreases i,
{
    if i == 0 {
        0
    } else {
        caps_upto(caps, (i - 1) as nat) + caps[i - 1]
    }
}

/// What the first `i` positions have received when a budget is handed out
/// in order, each position taking as much as its capacity and the rest of
/// the budget allow.
pub open spec fn served_before(caps: Seq<nat>, budget: nat, i: nat) -> nat
    decreases i,
{
    if i == 0 {
        0
    } else {
        let before = served_before(caps, budget, (i - 1) as nat);
        before + served_of(caps[i - 1], budget, before)
    }
}

/// The smaller of a capacity and what is left of the budget.
pub open spec fn served_of(cap: nat, budget: nat, before: nat) -> nat {
    if cap <= budget - before {
        cap
    } else {
        (budget - before) as nat
    }
}

/// What position `i` receives.
pub open spec fn served_at(caps: Seq<nat>, budget: nat, i: nat) -> nat {
    served_of(caps[i as int], budget, served_before(caps, budget, i))
}

/// Handing out in order serves the whole budget as soon as the capacities
/// seen so far cover it, and everything they can take before that.
pub proof fn lemma_served_before(caps: Seq<nat>, budget: nat, i: nat)
    ensures
        served_before(caps, budget, i) == if budget <= caps_upto(caps, i) {
            budget
        } else {
            caps_upto(caps, i)
        },
    decreases i,
{
    if i > 0 {
        lemma_served_before(caps, budget, (i - 1) as nat);
    }
}

} // verus!
