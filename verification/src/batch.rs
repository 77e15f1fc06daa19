use vstd::prelude::*;
use crate::error::HubError;
use crate::ratio::multiply_ratio;
use crate::types::Batch;

verus! {

/// Sum of what the first `i` batches still hold.
pub open spec fn unclaimed_upto(b: Seq<Batch>, i: nat) -> nat
    decreases i,
{
    if i == 0 {
        0
    } else {
        unclaimed_upto(b, (i - 1) as nat) + b[i - 1].utoken_unclaimed as nat
    }
}

/// Sum of what all batches still hold.
pub open spec fn total_unclaimed(b: Seq<Batch>) -> nat {
    unclaimed_upto(b, b.len())
}

/// Sum of the shares of the first `i` batches.
pub open spec fn shares_upto(b: Seq<Batch>, i: nat) -> nat
    decreases i,
{
    if i == 0 {
        0
    } else {
        shares_upto(b, (i - 1) as nat) + b[i - 1].total_shares as nat
    }
}

/// Sum of the shares of all batches.
pub open spec fn total_shares(b: Seq<Batch>) -> nat {
    shares_upto(b, b.len())
}

/// The part of `deficit` that falls to batch `i` in proportion to what it
/// holds, rounded down.
pub open spec fn proportional_cut(b: Seq<Batch>, deficit: nat, i: nat) -> nat {
    (deficit * (b[i as int].utoken_unclaimed as nat)) / total_unclaimed(b)
}

/// Sum of the proportional parts of the first `i` batches.
pub open spec fn cuts_upto(b: Seq<Batch>, deficit: nat, i: nat) -> nat
    decreases i,
{
    if i == 0 {
        0
    } else {
        cuts_upto(b, deficit, (i - 1) as nat) + proportional_cut(b, deficit, (i - 1) as nat)
    }
}

/// What is deducted from batch `i`: its proportional part, and for the last
/// batch whatever of the deficit the others have not absorbed.
pub open spec fn deduction_at(b: Seq<Batch>, deficit: nat, i: nat) -> nat {
    if i + 1 == b.len() {
        (deficit - cuts_upto(b, deficit, i)) as nat
    } else {
        proportional_cut(b, deficit, i)
    }
}

/// Whether `deficit` can be deducted from `b`: something is held at all, the
/// total fits in 128 bits, and no batch is asked for more than it holds.
pub open spec fn can_reconcile(b: Seq<Batch>, deficit: nat) -> bool {
    &&& 0 < total_unclaimed(b) <= u128::MAX
    &&& forall|i: nat| i < b.len() ==> #[trigger] deduction_at(b, deficit, i) <= b[i as int].utoken_unclaimed
}

/// A batch flagged as reconciled after `cut` has been deducted from it.
pub open spec fn reconciled_batch(b: Batch, cut: nat) -> Batch {
    Batch {
        id: b.id,
        reconciled: true,
        total_shares: b.total_shares,
        utoken_unclaimed: (b.utoken_unclaimed - cut) as u128,
        est_unbond_end_time: b.est_unbond_end_time,
    }
}

/// All batches after `deficit` has been deducted from them.
pub open spec fn reconciled_batches(b: Seq<Batch>, deficit: nat) -> Seq<Batch> {
    Seq::new(b.len(), |i: int| reconciled_batch(b[i], deduction_at(b, deficit, i as nat)))
}

/// All batches flagged as reconciled, with nothing deducted.
pub open spec fn marked_batches(b: Seq<Batch>) -> Seq<Batch> {
    Seq::new(b.len(), |i: int| reconciled_batch(b[i], 0))
}

proof fn lemma_unclaimed_upto_monotonic(b: Seq<Batch>, i: nat, j: nat)
    requires
        i <= j,
    ensures
        unclaimed_upto(b, i) <= unclaimed_upto(b, j),
    decreases j,
{
    if i < j {
        lemma_unclaimed_upto_monotonic(b, i, (j - 1) as nat);
    }
}

/// The proportional parts of any prefix never add up to more than the deficit.
pub proof fn lemma_cuts_within_deficit(b: Seq<Batch>, deficit: nat, i: nat)
    requires
        i <= b.len(),
        total_unclaimed(b) > 0,
    ensures
        cuts_upto(b, deficit, i) * total_unclaimed(b) <= deficit * unclaimed_upto(b, i),
        cuts_upto(b, deficit, i) <= deficit,
    decreases i,
{
    let s = total_unclaimed(b);
    let ci = cuts_upto(b, deficit, i);
    let ui = unclaimed_upto(b, i);
    if i > 0 {
        let h = (i - 1) as nat;
        lemma_cuts_within_deficit(b, deficit, h);
        let u = b[h as int].utoken_unclaimed as nat;
        let c = proportional_cut(b, deficit, h);
        let x = deficit * u;
        assert(c * s <= x) by (nonlinear_arith)
            requires
                c == x / s,
                s > 0,
                x >= 0,
        ;
        let ch = cuts_upto(b, deficit, h);
        let uh = unclaimed_upto(b, h);
        assert(ci == ch + c);
        assert(ui == uh + u);
        assert(ci * s <= deficit * ui) by (nonlinear_arith)
            requires
                ci == ch + c,
                ui == uh + u,
                ch * s <= deficit * uh,
                c * s <= deficit * u,
        ;
    } else {
        assert(ci * s <= deficit * ui) by (nonlinear_arith)
            requires
                ci == 0,
                ui == 0,
        ;
    }
    lemma_unclaimed_upto_monotonic(b, i, b.len());
    assert(ci <= deficit) by (nonlinear_arith)
        requires
            ci * s <= deficit * ui,
            ui <= s,
            s > 0,
            ci >= 0,
            deficit >= 0,
    ;
}

proof fn lemma_unclaimed_after(b: Seq<Batch>, deficit: nat, i: nat)
    requires
        i <= b.len(),
        can_reconcile(b, deficit),
    ensures
        unclaimed_upto(reconciled_batches(b, deficit), i) + (if i == b.len() {
            deficit
        } else {
            cuts_upto(b, deficit, i)
        }) == unclaimed_upto(b, i),
    decreases i,
{
    if i > 0 {
        let h = (i - 1) as nat;
        lemma_unclaimed_after(b, deficit, h);
        lemma_cuts_within_deficit(b, deficit, h);
        assert(deduction_at(b, deficit, h) <= b[h as int].utoken_unclaimed);
    }
}

proof fn lemma_shares_after(b: Seq<Batch>, deficit: nat, i: nat)
    requires
        i <= b.len(),
    ensures
        shares_upto(reconciled_batches(b, deficit), i) == shares_upto(b, i),
        shares_upto(marked_batches(b), i) == shares_upto(b, i),
        unclaimed_upto(marked_batches(b), i) == unclaimed_upto(b, i),
    decreases i,
{
    if i > 0 {
        lemma_shares_after(b, deficit, (i - 1) as nat);
    }
}

/// Deducting a deficit takes exactly that deficit out of what the batches
/// hold, flags every batch, and changes nothing else.
pub proof fn lemma_reconcile_deducts_exactly(b: Seq<Batch>, deficit: nat)
    requires
        can_reconcile(b, deficit),
    ensures
        total_unclaimed(reconciled_batches(b, deficit)) == total_unclaimed(b) - deficit,
        total_shares(reconciled_batches(b, deficit)) == total_shares(b),
        forall|i: int|
            0 <= i < b.len() ==> {
                let after = #[trigger] reconciled_batches(b, deficit)[i];
                &&& after.reconciled
                &&& after.id == b[i].id
                &&& after.total_shares == b[i].total_shares
                &&& after.est_unbond_end_time == b[i].est_unbond_end_time
                &&& after.utoken_unclaimed <= b[i].utoken_unclaimed
            },
{
    lemma_unclaimed_after(b, deficit, b.len());
    lemma_shares_after(b, deficit, b.len());
    assert forall|i: int| 0 <= i < b.len() implies (#[trigger] reconciled_batches(
        b,
        deficit,
    )[i]).utoken_unclaimed <= b[i].utoken_unclaimed by {
        assert(deduction_at(b, deficit, i as nat) <= b[i].utoken_unclaimed);
    }
}

/// Flagging is idempotent and leaves what the batches hold untouched.
pub proof fn lemma_mark_idempotent(b: Seq<Batch>)
    ensures
        marked_batches(marked_batches(b)) == marked_batches(b),
        total_unclaimed(marked_batches(b)) == total_unclaimed(b),
        total_shares(marked_batches(b)) == total_shares(b),
{
    assert(marked_batches(marked_batches(b)) =~= marked_batches(b));
    lemma_shares_after(b, 0, b.len());
}

/// Sum of what the batches hold, or `None` when it does not fit in 128 bits.
pub fn sum_unclaimed(batches: &Vec<Batch>) -> (r: Option<u128>)
    ensures
        match r {
            Some(t) => t == total_unclaimed(batches@),
            None => total_unclaimed(batches@) > u128::MAX,
        },
{
    let mut total: u128 = 0;
    let mut i: usize = 0;
    while i < batches.len()
        invariant
            i <= batches.len(),
            total == unclaimed_upto(batches@, i as nat),
        decreases batches.len() - i,
    {
        match total.checked_add(batches[i].utoken_unclaimed) {
            Some(t) => {
                total = t;
            },
            None => {
                proof {
                    lemma_unclaimed_upto_monotonic(batches@, (i + 1) as nat, batches@.len());
                }
                return None;
            },
        }
        i += 1;
    }
    Some(total)
}

/// Deducts `utoken_to_deduct` from the batches in proportion to what each
/// holds, the rounding remainder going to the last one, and flags every
/// batch as reconciled.
///
/// Fails, leaving the batches as they were, with `DivideByZero` when they
/// hold nothing, and with `Overflow` when their total leaves the 128-bit
/// range or a batch would be asked for more than it holds.
pub fn reconcile_batches(batches: &mut Vec<Batch>, utoken_to_deduct: u128) -> (r: Result<
    (),
    HubError,
>)
    ensures
        r is Ok <==> can_reconcile(old(batches)@, utoken_to_deduct as nat),
        r is Ok ==> final(batches)@ == reconciled_batches(old(batches)@, utoken_to_deduct as nat)
            && total_unclaimed(final(batches)@) == total_unclaimed(old(batches)@)
            - utoken_to_deduct,
        r is Err ==> final(batches)@ == old(batches)@,
        r matches Err(e) ==> e == if total_unclaimed(old(batches)@) == 0 {
            HubError::DivideByZero
        } else {
            HubError::Overflow
        },
{
    let ghost b = batches@;
    let ghost deficit = utoken_to_deduct as nat;
    let n: usize = batches.len();
    let total: u128 = match sum_unclaimed(batches) {
        Some(t) => t,
        None => {
            return Err(HubError::Overflow);
        },
    };
    if total == 0 {
        return Err(HubError::DivideByZero);
    }
    let mut out: Vec<Batch> = Vec::new();
    let mut deducted: u128 = 0;
    let mut i: usize = 0;
    while i < n
        invariant
            i <= n,
            n == b.len(),
            batches@ == b,
            deficit == utoken_to_deduct,
            total == total_unclaimed(b),
            total > 0,
            out@.len() == i,
            deducted == cuts_upto(
                b,
                deficit,
                if i < n {
                    i as nat
                } else {
                    (n - 1) as nat
                },
            ),
            forall|k: nat| k < i ==> #[trigger] deduction_at(b, deficit, k) <= b[k as int].utoken_unclaimed,
            forall|k: int|
                0 <= k < i ==> out@[k] == reconciled_batch(b[k], deduction_at(b, deficit, k as nat)),
        decreases n - i,
    {
        let batch: Batch = batches[i];
        proof {
            lemma_cuts_within_deficit(b, deficit, i as nat);
            lemma_cuts_within_deficit(b, deficit, (i + 1) as nat);
        }
        let cut: u128 = if i + 1 == n {
            utoken_to_deduct - deducted
        } else {
            match multiply_ratio(utoken_to_deduct, batch.utoken_unclaimed, total) {
                Some(c) => c,
                None => {
                    assert(deduction_at(b, deficit, i as nat) > b[i as int].utoken_unclaimed);
                    return Err(HubError::Overflow);
                },
            }
        };
        assert(cut == deduction_at(b, deficit, i as nat));
        if cut > batch.utoken_unclaimed {
            return Err(HubError::Overflow);
        }
        if i + 1 < n {
            deducted = deducted + cut;
        }
        out.push(
            Batch {
                id: batch.id,
                reconciled: true,
                total_shares: batch.total_shares,
                utoken_unclaimed: batch.utoken_unclaimed - cut,
                est_unbond_end_time: batch.est_unbond_end_time,
            },
        );
        i += 1;
    }
    proof {
        assert(out@ =~= reconciled_batches(b, deficit));
        lemma_reconcile_deducts_exactly(b, deficit);
    }
    *batches = out;
    Ok(())
}

/// Flags every batch as reconciled and changes nothing else.
pub fn mark_reconciled_batches(batches: &mut Vec<Batch>)
    ensures
        final(batches)@ == marked_batches(old(batches)@),
{
    let ghost b = batches@;
    let n: usize = batches.len();
    let mut i: usize = 0;
    while i < n
        invariant
            i <= n,
            n == b.len(),
            batches@.len() == n,
            forall|k: int| 0 <= k < i ==> batches@[k] == reconciled_batch(b[k], 0),
            forall|k: int| i <= k < n ==> batches@[k] == b[k],
        decreases n - i,
    {
        let batch: Batch = batches[i];
        batches.set(
            i,
            Batch {
                id: batch.id,
                reconciled: true,
                total_shares: batch.total_shares,
                utoken_unclaimed: batch.utoken_unclaimed,
                est_unbond_end_time: batch.est_unbond_end_time,
            },
        );
        i += 1;
    }
    assert(batches@ =~= marked_batches(b));
}

} // verus!
