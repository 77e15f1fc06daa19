use vstd::prelude::*;
use crate::math::stake_views;
use crate::types::{Delegation, StakeView};

verus! {

/// The mathematical contents of a list of strings.
pub open spec fn string_views(s: Seq<String>) -> Seq<Seq<char>> {
    s.map_values(|x: String| x@)
}

/// The first `i` entries of `s` with every repetition of an earlier entry
/// left out.
pub open spec fn deduped_upto(s: Seq<Seq<char>>, i: nat) -> Seq<Seq<char>>
    decreases i,
{
    if i == 0 {
        Seq::empty()
    } else {
        let before = deduped_upto(s, (i - 1) as nat);
        if before.contains(s[i - 1]) {
            before
        } else {
            before.push(s[i - 1])
        }
    }
}

/// `s` with every repetition of an earlier entry left out.
pub open spec fn deduped(s: Seq<Seq<char>>) -> Seq<Seq<char>> {
    deduped_upto(s, s.len())
}

/// Leaving out repetitions yields a list without duplicates that holds
/// exactly the entries seen so far.
pub proof fn lemma_deduped_upto(s: Seq<Seq<char>>, i: nat)
    requires
        i <= s.len(),
    ensures
        deduped_upto(s, i).no_duplicates(),
        forall|x: Seq<char>| #[trigger]
            deduped_upto(s, i).contains(x) <==> exists|k: int| 0 <= k < i && s[k] == x,
    decreases i,
{
    if i > 0 {
        lemma_deduped_upto(s, (i - 1) as nat);
        let before = deduped_upto(s, (i - 1) as nat);
        let now = deduped_upto(s, i);
        let last = s[i - 1];
        assert forall|x: Seq<char>| #[trigger] now.contains(x) <==> exists|k: int|
            0 <= k < i && s[k] == x by {
            if now.contains(x) {
                let p = choose|p: int| 0 <= p < now.len() && now[p] == x;
                if p < before.len() {
                    assert(before.contains(x));
                    let k = choose|k: int| 0 <= k < i - 1 && s[k] == x;
                    assert(0 <= k < i && s[k] == x);
                } else {
                    assert(s[i - 1] == x);
                }
            }
            if exists|k: int| 0 <= k < i && s[k] == x {
                let k = choose|k: int| 0 <= k < i && s[k] == x;
                if k < i - 1 {
                    assert(before.contains(x));
                    let p = choose|p: int| 0 <= p < before.len() && before[p] == x;
                    assert(now[p] == x);
                } else if before.contains(last) {
                    assert(now.contains(x));
                } else {
                    assert(now[before.len() as int] == x);
                }
            }
        }
    }
}

/// A deduplicated list has no duplicates, holds exactly the entries of the
/// list it was made from, and is that list itself if it had none.
pub proof fn lemma_deduped(s: Seq<Seq<char>>)
    ensures
        deduped(s).no_duplicates(),
        forall|x: Seq<char>| #[trigger] deduped(s).contains(x) <==> s.contains(x),
        s.no_duplicates() ==> deduped(s) == s,
{
    lemma_deduped_upto(s, s.len());
    if s.no_duplicates() {
        lemma_deduped_keeps_distinct(s, s.len());
        assert(s.take(s.len() as int) =~= s);
    }
}

proof fn lemma_deduped_keeps_distinct(s: Seq<Seq<char>>, i: nat)
    requires
        i <= s.len(),
        s.no_duplicates(),
    ensures
        deduped_upto(s, i) == s.take(i as int),
    decreases i,
{
    if i > 0 {
        lemma_deduped_keeps_distinct(s, (i - 1) as nat);
        lemma_deduped_upto(s, (i - 1) as nat);
        assert(s.take(i as int) =~= s.take(i - 1).push(s[i - 1]));
    } else {
        assert(s.take(0) =~= Seq::<Seq<char>>::empty());
    }
}

/// Whether `list` holds an entry equal to `x`.
pub fn contains_string(list: &Vec<String>, x: &String) -> (r: bool)
    ensures
        r == string_views(list@).contains(x@),
{
    let mut k: usize = 0;
    while k < list.len()
        invariant
            k <= list.len(),
            forall|p: int| 0 <= p < k ==> string_views(list@)[p] != x@,
        decreases list.len() - k,
    {
        if list[k] == *x {
            assert(string_views(list@)[k as int] == x@);
            return true;
        }
        k += 1;
    }
    false
}

/// Removes every repetition of an earlier entry, keeping the order of the
/// first occurrences.
pub fn dedupe(v: &mut Vec<String>)
    ensures
        string_views(final(v)@) == deduped(string_views(old(v)@)),
        string_views(final(v)@).no_duplicates(),
{
    let ghost s = string_views(v@);
    let mut out: Vec<String> = Vec::new();
    let mut i: usize = 0;
    while i < v.len()
        invariant
            i <= v.len(),
            s == string_views(v@),
            string_views(out@) == deduped_upto(s, i as nat),
        decreases v.len() - i,
    {
        if !contains_string(&out, &v[i]) {
            let ghost before = out@;
            out.push(v[i].clone());
            assert(string_views(out@) =~= string_views(before).push(s[i as int]));
        }
        i += 1;
    }
    proof {
        lemma_deduped(s);
    }
    *v = out;
}

/// Position of the smallest delegation, the first one among equals; the
/// length of the list when it is empty.
pub open spec fn smallest_upto(d: Seq<StakeView>, i: nat) -> nat
    decreases i,
{
    if i <= 1 {
        0
    } else {
        let best = smallest_upto(d, (i - 1) as nat);
        if d[i - 1].amount < d[best as int].amount {
            (i - 1) as nat
        } else {
            best
        }
    }
}

/// The position found is within the list, nothing in the list is smaller,
/// and everything before it is larger.
pub proof fn lemma_smallest_upto(d: Seq<StakeView>, i: nat)
    requires
        0 < i <= d.len(),
    ensures
        smallest_upto(d, i) < i,
        forall|k: int|
            0 <= k < i ==> d[smallest_upto(d, i) as int].amount <= (#[trigger] d[k]).amount,
        forall|k: int|
            0 <= k < smallest_upto(d, i) ==> d[smallest_upto(d, i) as int].amount < (
            #[trigger] d[k]).amount,
    decreases i,
{
    if i > 1 {
        lemma_smallest_upto(d, (i - 1) as nat);
    }
}

/// Position of the validator with the smallest delegation, found by one
/// pass over the list; among equals the first wins. `None` exactly when the
/// list is empty.
pub fn pick_smallest(delegations: &Vec<Delegation>) -> (r: Option<usize>)
    ensures
        r is None <==> delegations@.len() == 0,
        r matches Some(i) ==> {
            let d = stake_views(delegations@);
            &&& i == smallest_upto(d, d.len())
            &&& i < d.len()
            &&& forall|k: int| 0 <= k < d.len() ==> d[i as int].amount <= (#[trigger] d[k]).amount
            &&& forall|k: int| 0 <= k < i ==> d[i as int].amount < (#[trigger] d[k]).amount
        },
{
    if delegations.len() == 0 {
        return None;
    }
    let ghost d = stake_views(delegations@);
    let mut best: usize = 0;
    let mut amount: u128 = delegations[0].amount;
    let mut k: usize = 1;
    while k < delegations.len()
        invariant
            1 <= k <= delegations.len(),
            d == stake_views(delegations@),
            best == smallest_upto(d, k as nat),
            best < k,
            amount == d[best as int].amount,
        decreases delegations.len() - k,
    {
        if delegations[k].amount < amount {
            best = k;
            amount = delegations[k].amount;
        }
        k += 1;
    }
    proof {
        lemma_smallest_upto(d, d.len());
    }
    Some(best)
}

} // verus!
