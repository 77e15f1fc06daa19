use vstd::prelude::*;
use crate::error::HubError;
use crate::types::{Coin, CoinView};

verus! {

/// A ledger of coins: at most one entry is meant for each denomination.
#[derive(Debug, Clone, PartialEq, Eq)]
pub struct Coins(pub Vec<Coin>);

/// The mathematical contents of a list of coins.
pub open spec fn coin_views(c: Seq<Coin>) -> Seq<CoinView> {
    c.map_values(|x: Coin| x@)
}

impl View for Coins {
    type V = Seq<CoinView>;

    open spec fn view(&self) -> Seq<CoinView> {
        coin_views(self.0@)
    }
}

/// First position at or after `from` whose entry has the given
/// denomination, or the length of the list when there is none.
pub open spec fn denom_position(s: Seq<CoinView>, denom: Seq<char>, from: nat) -> nat
    decreases s.len() - from,
{
    if from >= s.len() {
        s.len()
    } else if s[from as int].denom == denom {
        from
    } else {
        denom_position(s, denom, from + 1)
    }
}

/// The amount the ledger holds of a denomination: that of its first entry
/// for it, or zero.
pub open spec fn amount_of(s: Seq<CoinView>, denom: Seq<char>) -> nat {
    let p = denom_position(s, denom, 0);
    if p < s.len() {
        s[p as int].amount
    } else {
        0
    }
}

/// The ledger after a coin has been added: the amount goes to the first
/// entry of its denomination, or a new entry is appended.
pub open spec fn with_added(s: Seq<CoinView>, coin: CoinView) -> Seq<CoinView> {
    let p = denom_position(s, coin.denom, 0);
    if p < s.len() {
        s.update(p as int, CoinView { denom: coin.denom, amount: s[p as int].amount + coin.amount })
    } else {
        s.push(coin)
    }
}

/// The ledger after the first `i` of `coins` have been added in order.
pub open spec fn with_added_upto(s: Seq<CoinView>, coins: Seq<CoinView>, i: nat) -> Seq<CoinView>
    decreases i,
{
    if i == 0 {
        s
    } else {
        with_added(with_added_upto(s, coins, (i - 1) as nat), coins[i - 1])
    }
}

/// The first `i` entries of the ledger without those of a denomination.
pub open spec fn without_denom_upto(s: Seq<CoinView>, denom: Seq<char>, i: nat) -> Seq<CoinView>
    decreases i,
{
    if i == 0 {
        Seq::empty()
    } else {
        let before = without_denom_upto(s, denom, (i - 1) as nat);
        if s[i - 1].denom == denom {
            before
        } else {
            before.push(s[i - 1])
        }
    }
}

/// The ledger without the entries of a denomination.
pub open spec fn without_denom(s: Seq<CoinView>, denom: Seq<char>) -> Seq<CoinView> {
    without_denom_upto(s, denom, s.len())
}

/// The search for a denomination stays within the list, finds an entry of
/// that denomination if it stops early, and passes over none.
pub proof fn lemma_denom_position(s: Seq<CoinView>, denom: Seq<char>, from: nat)
    requires
        from <= s.len(),
    ensures
        from <= denom_position(s, denom, from) <= s.len(),
        denom_position(s, denom, from) < s.len() ==> s[denom_position(s, denom, from) as int].denom
            == denom,
        forall|k: int| from <= k < denom_position(s, denom, from) ==> (#[trigger] s[k]).denom != denom,
    decreases s.len() - from,
{
    if from < s.len() && s[from as int].denom != denom {
        lemma_denom_position(s, denom, from + 1);
    }
}

/// Once a denomination has been taken out, the ledger holds nothing of it,
/// and holds of every other denomination what it held before.
pub proof fn lemma_without_denom(s: Seq<CoinView>, denom: Seq<char>, other: Seq<char>)
    ensures
        amount_of(without_denom(s, denom), denom) == 0,
        other != denom ==> amount_of(without_denom(s, denom), other) == amount_of(s, other),
{
    let w = without_denom(s, denom);
    lemma_without_denom_upto(s, denom, s.len());
    lemma_denom_position(w, denom, 0);
    if other != denom {
        lemma_without_denom_first(s, denom, other, s.len());
        assert(s.take(s.len() as int) =~= s);
    }
}

proof fn lemma_without_denom_upto(s: Seq<CoinView>, denom: Seq<char>, i: nat)
    requires
        i <= s.len(),
    ensures
        forall|k: int|
            0 <= k < without_denom_upto(s, denom, i).len() ==> (#[trigger] without_denom_upto(
                s,
                denom,
                i,
            )[k]).denom != denom,
    decreases i,
{
    if i > 0 {
        lemma_without_denom_upto(s, denom, (i - 1) as nat);
        let before = without_denom_upto(s, denom, (i - 1) as nat);
        let now = without_denom_upto(s, denom, i);
        assert forall|k: int| 0 <= k < now.len() implies (#[trigger] now[k]).denom != denom by {
            if k < before.len() {
                assert(now[k] == before[k]);
            }
        }
    }
}

proof fn lemma_without_denom_first(s: Seq<CoinView>, denom: Seq<char>, other: Seq<char>, i: nat)
    requires
        i <= s.len(),
        other != denom,
    ensures
        amount_of(without_denom_upto(s, denom, i), other) == amount_of(s.take(i as int), other),
        denom_position(without_denom_upto(s, denom, i), other, 0) < without_denom_upto(
            s,
            denom,
            i,
        ).len() <==> denom_position(s.take(i as int), other, 0) < i,
    decreases i,
{
    let w = without_denom_upto(s, denom, i);
    let t = s.take(i as int);
    lemma_denom_position(w, other, 0);
    lemma_denom_position(t, other, 0);
    if i > 0 {
        let wb = without_denom_upto(s, denom, (i - 1) as nat);
        let tb = s.take(i - 1);
        lemma_without_denom_first(s, denom, other, (i - 1) as nat);
        lemma_denom_position(wb, other, 0);
        lemma_denom_position(tb, other, 0);
        let pw = denom_position(wb, other, 0);
        let pt = denom_position(tb, other, 0);
        assert(t =~= tb.push(s[i - 1]));
        if pt < tb.len() {
            lemma_position_is_first(t, other, pt);
            lemma_position_is_first(w, other, pw);
        } else if s[i - 1].denom == other {
            lemma_position_is_first(t, other, tb.len());
            lemma_position_is_first(w, other, wb.len());
        } else {
            assert forall|k: int| 0 <= k < t.len() implies (#[trigger] t[k]).denom != other by {
                if k < tb.len() {
                    assert(tb[k] == t[k]);
                }
            }
            assert forall|k: int| 0 <= k < w.len() implies (#[trigger] w[k]).denom != other by {
                if k < wb.len() {
                    assert(wb[k] == w[k]);
                }
            }
        }
    }
}

/// A position that holds the denomination, with none before it, is the one
/// the search finds.
pub proof fn lemma_position_is_first(s: Seq<CoinView>, denom: Seq<char>, p: nat)
    requires
        p < s.len(),
        s[p as int].denom == denom,
        forall|k: int| 0 <= k < p ==> (#[trigger] s[k]).denom != denom,
    ensures
        denom_position(s, denom, 0) == p,
{
    lemma_denom_position(s, denom, 0);
}

/// What the hub's ledger always satisfies: every entry holds something,
/// and no two entries have the same denomination.
pub open spec fn ledger_wf(s: Seq<CoinView>) -> bool {
    &&& forall|i: int| 0 <= i < s.len() ==> (#[trigger] s[i]).amount > 0
    &&& forall|i: int, j: int|
        0 <= i < j < s.len() ==> (#[trigger] s[i]).denom != (#[trigger] s[j]).denom
}

/// Adding a coin that holds something keeps the ledger well formed.
pub proof fn lemma_added_keeps_ledger(s: Seq<CoinView>, coin: CoinView)
    requires
        ledger_wf(s),
        coin.amount > 0,
    ensures
        ledger_wf(with_added(s, coin)),
{
    lemma_denom_position(s, coin.denom, 0);
    let after = with_added(s, coin);
    let p = denom_position(s, coin.denom, 0);
    assert forall|i: int, j: int| 0 <= i < j < after.len() implies (#[trigger] after[i]).denom != (
    #[trigger] after[j]).denom by {
        if p < s.len() {
            assert(after[i].denom == s[i].denom);
            assert(after[j].denom == s[j].denom);
        } else if j < s.len() {
            assert(after[i] == s[i] && after[j] == s[j]);
        } else {
            assert(after[i] == s[i]);
        }
    }
    assert forall|i: int| 0 <= i < after.len() implies (#[trigger] after[i]).amount > 0 by {
        if i < s.len() && i != p {
            assert(after[i] == s[i]);
        } else if i < s.len() {
            assert(s[i].amount > 0);
        }
    }
}

proof fn lemma_without_keeps_upto(s: Seq<CoinView>, denom: Seq<char>, i: nat)
    requires
        ledger_wf(s),
        i <= s.len(),
    ensures
        ledger_wf(without_denom_upto(s, denom, i)),
        forall|p: int|
            0 <= p < without_denom_upto(s, denom, i).len() ==> exists|k: int|
                0 <= k < i && s[k] == #[trigger] without_denom_upto(s, denom, i)[p],
    decreases i,
{
    let now = without_denom_upto(s, denom, i);
    if i > 0 {
        let h = (i - 1) as nat;
        lemma_without_keeps_upto(s, denom, h);
        let before = without_denom_upto(s, denom, h);
        assert forall|p: int| 0 <= p < now.len() implies exists|k: int|
            0 <= k < i && s[k] == #[trigger] now[p] by {
            if p < before.len() {
                assert(now[p] == before[p]);
                let k = choose|k: int| 0 <= k < h && s[k] == before[p];
                assert(0 <= k < i && s[k] == now[p]);
            } else {
                assert(s[h as int] == now[p]);
            }
        }
        assert forall|a: int, b: int| 0 <= a < b < now.len() implies (#[trigger] now[a]).denom != (
        #[trigger] now[b]).denom by {
            if b < before.len() {
                assert(now[a] == before[a] && now[b] == before[b]);
            } else {
                assert(now[a] == before[a]);
                let k = choose|k: int| 0 <= k < h && s[k] == before[a];
                assert(s[k].denom != s[h as int].denom);
            }
        }
        assert forall|a: int| 0 <= a < now.len() implies (#[trigger] now[a]).amount > 0 by {
            if a < before.len() {
                assert(now[a] == before[a]);
            } else {
                assert(s[h as int].amount > 0);
            }
        }
    }
}

/// Taking a denomination out keeps the ledger well formed.
pub proof fn lemma_without_keeps_ledger(s: Seq<CoinView>, denom: Seq<char>)
    requires
        ledger_wf(s),
    ensures
        ledger_wf(without_denom(s, denom)),
{
    lemma_without_keeps_upto(s, denom, s.len());
}

impl Coins {
    /// An empty ledger.
    pub fn new() -> (r: Self)
        ensures
            r@ == Seq::<CoinView>::empty(),
    {
        let r = Coins(Vec::new());
        assert(r@ =~= Seq::<CoinView>::empty());
        r
    }

    fn position(&self, denom: &String) -> (p: usize)
        ensures
            p == denom_position(self@, denom@, 0),
            p <= self.0@.len(),
    {
        let mut k: usize = 0;
        while k < self.0.len()
            invariant
                k <= self.0@.len(),
                denom_position(self@, denom@, 0) == denom_position(self@, denom@, k as nat),
            decreases self.0@.len() - k,
        {
            if self.0[k].denom == *denom {
                return k;
            }
            k += 1;
        }
        k
    }

    /// Adds a coin to the ledger, merging it into the entry of its
    /// denomination if there is one.
    ///
    /// Fails with `Overflow`, leaving the ledger as it was, exactly when the
    /// merged amount leaves the 128-bit range.
    pub fn add(&mut self, coin_to_add: &Coin) -> (r: Result<(), HubError>)
        ensures
            r is Ok <==> amount_of(old(self)@, coin_to_add.denom@) + coin_to_add.amount
                <= u128::MAX,
            r is Ok ==> final(self)@ == with_added(old(self)@, coin_to_add@),
            r is Err ==> *final(self) == *old(self),
            r matches Err(e) ==> e == HubError::Overflow,
    {
        let p: usize = self.position(&coin_to_add.denom);
        if p < self.0.len() {
            let amount: u128 = match self.0[p].amount.checked_add(coin_to_add.amount) {
                Some(a) => a,
                None => {
                    return Err(HubError::Overflow);
                },
            };
            let ghost before = self@;
            self.0.set(p, Coin { denom: coin_to_add.denom.clone(), amount });
            assert(self@ =~= with_added(before, coin_to_add@));
        } else {
            let ghost before = self@;
            self.0.push(coin_to_add.clone());
            assert(self@ =~= with_added(before, coin_to_add@));
        }
        Ok(())
    }

    /// Adds every coin of `coins_to_add`, in order.
    ///
    /// Fails with `Overflow`, leaving the ledger as it was, when one of the
    /// merged amounts leaves the 128-bit range.
    pub fn add_many(&mut self, coins_to_add: &Coins) -> (r: Result<(), HubError>)
        ensures
            r is Ok ==> final(self)@ == with_added_upto(
                old(self)@,
                coins_to_add@,
                coins_to_add@.len(),
            ),
            r is Ok <==> forall|i: nat|
                i < coins_to_add@.len() ==> amount_of(
                    #[trigger] with_added_upto(old(self)@, coins_to_add@, i),
                    coins_to_add@[i as int].denom,
                ) + coins_to_add@[i as int].amount <= u128::MAX,
            r is Err ==> *final(self) == *old(self),
            r matches Err(e) ==> e == HubError::Overflow,
    {
        let ghost start = self@;
        let mut work: Coins = Coins(clone_coins(&self.0));
        assert(work@ =~= start);
        let mut i: usize = 0;
        while i < coins_to_add.0.len()
            invariant
                i <= coins_to_add.0@.len(),
                *self == *old(self),
                start == old(self)@,
                work@ == with_added_upto(start, coins_to_add@, i as nat),
                forall|k: nat|
                    k < i ==> amount_of(
                        #[trigger] with_added_upto(start, coins_to_add@, k),
                        coins_to_add@[k as int].denom,
                    ) + coins_to_add@[k as int].amount <= u128::MAX,
            decreases coins_to_add.0@.len() - i,
        {
            let ghost reached = work@;
            match work.add(&coins_to_add.0[i]) {
                Ok(()) => {},
                Err(e) => {
                    proof {
                        let at = i as nat;
                        assert(reached == with_added_upto(start, coins_to_add@, at));
                        assert(amount_of(
                            with_added_upto(start, coins_to_add@, at),
                            coins_to_add@[at as int].denom,
                        ) + coins_to_add@[at as int].amount > u128::MAX);
                    }
                    return Err(e);
                },
            }
            i += 1;
        }
        *self = work;
        Ok(())
    }

    /// The coin the ledger holds of a denomination; a zero coin when it has
    /// no entry for it.
    pub fn find(&self, denom: &str) -> (r: Coin)
        ensures
            r@ == (CoinView { denom: denom@, amount: amount_of(self@, denom@) }),
    {
        let wanted: String = denom.to_owned();
        let p: usize = self.position(&wanted);
        if p < self.0.len() {
            Coin { denom: wanted, amount: self.0[p].amount }
        } else {
            Coin { denom: wanted, amount: 0 }
        }
    }

    /// Takes every entry of a denomination out of the ledger.
    pub fn remove_denom(&mut self, denom: &str)
        ensures
            final(self)@ == without_denom(old(self)@, denom@),
    {
        let ghost s = self@;
        let wanted: String = denom.to_owned();
        let mut out: Vec<Coin> = Vec::new();
        let mut i: usize = 0;
        while i < self.0.len()
            invariant
                i <= self.0@.len(),
                s == self@,
                wanted@ == denom@,
                coin_views(out@) == without_denom_upto(s, denom@, i as nat),
            decreases self.0@.len() - i,
        {
            if !(self.0[i].denom == wanted) {
                let ghost before = out@;
                out.push(self.0[i].clone());
                assert(coin_views(out@) =~= coin_views(before).push(s[i as int]));
            }
            i += 1;
        }
        self.0 = out;
    }
}

/// A copy of a list of coins.
pub fn clone_coins(coins: &Vec<Coin>) -> (r: Vec<Coin>)
    ensures
        r@ == coins@,
{
    let mut out: Vec<Coin> = Vec::new();
    let mut i: usize = 0;
    while i < coins.len()
        invariant
            i <= coins.len(),
            out@ == coins@.take(i as int),
        decreases coins.len() - i,
    {
        out.push(coins[i].clone());
        assert(out@ =~= coins@.take(i + 1));
        i += 1;
    }
    assert(coins@.take(coins@.len() as int) =~= coins@);
    out
}

} // verus!
