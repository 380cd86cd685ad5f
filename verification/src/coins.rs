//! Amounts of money by currency label, and tallies of them.
//!
//! A tally is a list of coins in which no label occurs twice: it holds one
//! balance for each label that was ever added to it, in the order in which the
//! labels first came.

use vstd::prelude::*;

verus! {

/// An amount of one currency.
#[derive(Clone, Debug)]
pub struct Coin {
    pub denom: String,
    pub amount: u128,
}

/// What a coin stands for: a currency label and a quantity that knows no
/// machine limit.
pub struct Stake {
    pub denom: Seq<char>,
    pub amount: nat,
}

impl View for Coin {
    type V = Stake;

    open spec fn view(&self) -> Stake {
        Stake { denom: self.denom@, amount: self.amount as nat }
    }
}

impl Coin {
    /// The coin of the given quantity in the currency `denom`.
    pub fn new(amount: u128, denom: &str) -> (coin: Coin)
        ensures
            coin@ == (Stake { denom: denom@, amount: amount as nat }),
    {
        Coin { denom: String::from_str(denom), amount }
    }
}

/// The coins of a list, each as the stake that it stands for.
pub open spec fn stakes(coins: Seq<Coin>) -> Seq<Stake> {
    Seq::new(coins.len(), |i: int| coins[i]@)
}

/// What one stake adds to the balance of the currency `d`.
pub open spec fn part(s: Stake, d: Seq<char>) -> nat {
    if s.denom == d {
        s.amount
    } else {
        0
    }
}

/// The sum of the quantities that the list holds in the currency `d`.
pub open spec fn total(s: Seq<Stake>, d: Seq<char>) -> nat
    decreases s.len(),
{
    if s.len() == 0 {
        0
    } else {
        total(s.drop_last(), d) + part(s.last(), d)
    }
}

/// Whether some entry of the list is in the currency `d`.
pub open spec fn has_denom(s: Seq<Stake>, d: Seq<char>) -> bool {
    exists|i: int| 0 <= i < s.len() && (#[trigger] s[i]).denom == d
}

/// No currency has two entries in the list.
pub open spec fn is_tally(s: Seq<Stake>) -> bool {
    forall|i: int, j: int|
        0 <= i < j < s.len() ==> (#[trigger] s[i]).denom != (#[trigger] s[j]).denom
}

/// The currencies of the entries, entry by entry.
pub open spec fn denoms(s: Seq<Stake>) -> Seq<Seq<char>> {
    Seq::new(s.len(), |i: int| s[i].denom)
}

/// The currencies that occur in the list, each once, in the order in which
/// they first occur.
pub open spec fn currencies(s: Seq<Stake>) -> Seq<Seq<char>>
    decreases s.len(),
{
    if s.len() == 0 {
        Seq::empty()
    } else if has_denom(s.drop_last(), s.last().denom) {
        currencies(s.drop_last())
    } else {
        currencies(s.drop_last()).push(s.last().denom)
    }
}

/// `t` is the tally of `s`: it has one entry for each currency that occurs in
/// `s`, in the order in which the currencies first occur there, and each entry
/// holds the sum of what `s` holds in its currency.
pub open spec fn is_tally_of(t: Seq<Stake>, s: Seq<Stake>) -> bool {
    &&& denoms(t) == currencies(s)
    &&& forall|i: int| 0 <= i < t.len() ==> (#[trigger] t[i]).amount == total(s, t[i].denom)
}

/// Appending a stake adds its part to the total of each currency.
pub proof fn lemma_total_push(s: Seq<Stake>, x: Stake, d: Seq<char>)
    ensures
        total(s.push(x), d) == total(s, d) + part(x, d),
{
    assert(s.push(x).drop_last() =~= s);
}

/// A list without an entry in `d` has a total of zero there.
pub proof fn lemma_total_absent(s: Seq<Stake>, d: Seq<char>)
    requires
        !has_denom(s, d),
    ensures
        total(s, d) == 0,
    decreases s.len(),
{
    if s.len() > 0 {
        assert(s.last() == s[s.len() - 1]);
        assert forall|i: int| 0 <= i < s.drop_last().len() implies (#[trigger] s.drop_last()[i]).denom
            != d by {
            assert(s.drop_last()[i] == s[i]);
        }
        lemma_total_absent(s.drop_last(), d);
    }
}

/// Replacing one entry changes each total by the difference of the parts.
pub proof fn lemma_total_update(s: Seq<Stake>, i: int, x: Stake, d: Seq<char>)
    requires
        0 <= i < s.len(),
    ensures
        total(s.update(i, x), d) + part(s[i], d) == total(s, d) + part(x, d),
    decreases s.len(),
{
    let u = s.update(i, x);
    if i == s.len() - 1 {
        assert(u.drop_last() =~= s.drop_last());
    } else {
        assert(u.drop_last() =~= s.drop_last().update(i, x));
        lemma_total_update(s.drop_last(), i, x, d);
    }
}

/// In a tally the total of a currency is the amount of its one entry.
pub proof fn lemma_total_of_entry(s: Seq<Stake>, i: int)
    requires
        is_tally(s),
        0 <= i < s.len(),
    ensures
        total(s, s[i].denom) == s[i].amount,
    decreases s.len(),
{
    let d = s[i].denom;
    let front = s.drop_last();
    if i == s.len() - 1 {
        assert forall|j: int| 0 <= j < front.len() implies (#[trigger] front[j]).denom != d by {
            assert(front[j] == s[j]);
        }
        lemma_total_absent(front, d);
    } else {
        assert forall|j: int, k: int| 0 <= j < k < front.len() implies (#[trigger] front[j]).denom
            != (#[trigger] front[k]).denom by {
            assert(front[j] == s[j] && front[k] == s[k]);
        }
        assert(front[i] == s[i]);
        lemma_total_of_entry(front, i);
    }
}

/// A tally of a list names no currency twice, holds the same sum as the list
/// in every currency, and has an entry for exactly the currencies of the list.
pub proof fn lemma_tally_of(t: Seq<Stake>, s: Seq<Stake>)
    requires
        is_tally_of(t, s),
    ensures
        is_tally(t),
        forall|d: Seq<char>| total(t, d) == total(s, d),
        forall|d: Seq<char>| has_denom(t, d) <==> has_denom(s, d),
{
    lemma_currencies(s);
    assert forall|i: int, j: int| 0 <= i < j < t.len() implies (#[trigger] t[i]).denom != (
    #[trigger] t[j]).denom by {
        assert(denoms(t)[i] == t[i].denom && denoms(t)[j] == t[j].denom);
    }
    assert forall|d: Seq<char>| has_denom(t, d) <==> has_denom(s, d) by {
        if has_denom(t, d) {
            let i = choose|i: int| 0 <= i < t.len() && (#[trigger] t[i]).denom == d;
            assert(denoms(t)[i] == d);
            assert(currencies(s).contains(d));
        }
        if has_denom(s, d) {
            assert(currencies(s).contains(d));
            let i = choose|i: int| 0 <= i < currencies(s).len() && currencies(s)[i] == d;
            assert(denoms(t)[i] == t[i].denom);
        }
    }
    assert forall|d: Seq<char>| total(t, d) == total(s, d) by {
        if has_denom(t, d) {
            let i = choose|i: int| 0 <= i < t.len() && (#[trigger] t[i]).denom == d;
            lemma_total_of_entry(t, i);
        } else {
            lemma_total_absent(t, d);
            lemma_total_absent(s, d);
        }
    }
}

/// The currencies of a list are those that have an entry in it, and none of
/// them is named twice.
pub proof fn lemma_currencies(s: Seq<Stake>)
    ensures
        forall|d: Seq<char>| currencies(s).contains(d) <==> has_denom(s, d),
        forall|i: int, j: int|
            0 <= i < j < currencies(s).len() ==> currencies(s)[i] != currencies(s)[j],
    decreases s.len(),
{
    let c = currencies(s);
    if s.len() > 0 {
        let front = s.drop_last();
        let last = s.last();
        let f = currencies(front);
        lemma_currencies(front);
        assert forall|d: Seq<char>| c.contains(d) <==> has_denom(s, d) by {
            if has_denom(front, d) {
                let i = choose|i: int| 0 <= i < front.len() && (#[trigger] front[i]).denom == d;
                assert(s[i].denom == d);
                assert(f.contains(d));
                let k = choose|k: int| 0 <= k < f.len() && f[k] == d;
                assert(c[k] == d);
            }
            if d == last.denom {
                assert(s[s.len() - 1].denom == d);
                if !has_denom(front, d) {
                    assert(c[f.len() as int] == d);
                }
            }
            if has_denom(s, d) {
                let i = choose|i: int| 0 <= i < s.len() && (#[trigger] s[i]).denom == d;
                if i < front.len() {
                    assert(front[i].denom == d);
                }
            }
            if c.contains(d) {
                let k = choose|k: int| 0 <= k < c.len() && c[k] == d;
                if k < f.len() {
                    assert(f[k] == d);
                    assert(f.contains(d));
                }
            }
        }
        assert forall|i: int, j: int| 0 <= i < j < c.len() implies c[i] != c[j] by {
            if j == f.len() {
                assert(f[i] == c[i]);
                assert(f.contains(c[i]));
            }
        }
    }
}

/// A list that names no currency twice, agrees with `s` on the sum in every
/// currency and names its currencies as they first occur in `s` is the tally
/// of `s`.
pub proof fn lemma_is_tally_of(t: Seq<Stake>, s: Seq<Stake>)
    requires
        is_tally(t),
        forall|d: Seq<char>| total(t, d) == total(s, d),
        denoms(t) == currencies(s),
    ensures
        is_tally_of(t, s),
{
    assert forall|i: int| 0 <= i < t.len() implies (#[trigger] t[i]).amount == total(
        s,
        t[i].denom,
    ) by {
        lemma_total_of_entry(t, i);
    }
}

/// Where the entry of the currency `denom` stands in the list, if it has one.
pub fn find_denom(coins: &Vec<Coin>, denom: &String) -> (r: Option<usize>)
    ensures
        match r {
            Some(i) => i < coins.len() && coins[i as int].denom@ == denom@ && forall|j: int|
                0 <= j < i ==> (#[trigger] coins[j]).denom@ != denom@,
            None => !has_denom(stakes(coins@), denom@),
        },
{
    let mut i: usize = 0;
    while i < coins.len()
        invariant
            i <= coins.len(),
            forall|j: int| 0 <= j < i ==> (#[trigger] coins[j]).denom@ != denom@,
        decreases coins.len() - i,
    {
        if coins[i].denom == *denom {
            return Some(i);
        }
        i += 1;
    }
    proof {
        let s = stakes(coins@);
        assert forall|j: int| 0 <= j < s.len() implies (#[trigger] s[j]).denom != denom@ by {
            assert(s[j] == coins[j]@);
        }
    }
    None
}

/// The sum of the quantities that the coins hold in the currency `denom`, or
/// nothing where that sum is beyond the largest quantity a coin can hold.
pub fn total_of(coins: &Vec<Coin>, denom: &String) -> (r: Option<u128>)
    ensures
        r == (if total(stakes(coins@), denom@) <= u128::MAX {
            Some(total(stakes(coins@), denom@) as u128)
        } else {
            None
        }),
{
    let ghost all = stakes(coins@);
    let mut sum: u128 = 0;
    let mut i: usize = 0;
    while i < coins.len()
        invariant
            i <= coins.len(),
            all == stakes(coins@),
            sum == total(all.take(i as int), denom@),
        decreases coins.len() - i,
    {
        proof {
            let next = all.take(i as int + 1);
            assert(next.drop_last() =~= all.take(i as int));
            assert(next.last() == coins[i as int]@);
            lemma_total_prefix(all, i as int + 1, denom@);
        }
        if coins[i].denom == *denom {
            match sum.checked_add(coins[i].amount) {
                Some(more) => {
                    sum = more;
                },
                None => {
                    return None;
                },
            }
        }
        i += 1;
    }
    proof {
        assert(all.take(i as int) =~= all);
    }
    Some(sum)
}

/// The total of a front part of a list is at most the total of the list.
pub proof fn lemma_total_prefix(s: Seq<Stake>, k: int, d: Seq<char>)
    requires
        0 <= k <= s.len(),
    ensures
        total(s.take(k), d) <= total(s, d),
    decreases s.len() - k,
{
    if k < s.len() {
        let next = s.take(k + 1);
        assert(next.drop_last() =~= s.take(k));
        lemma_total_prefix(s, k + 1, d);
    } else {
        assert(s.take(k) =~= s);
    }
}

/// Adds `amount` to the balance that the tally holds in the currency `denom`,
/// with a new entry at the end where the tally has none for it yet. Where the
/// balance would pass the largest quantity a coin can hold, the tally stays as
/// it is and the answer is `false`.
pub fn add_to_tally(tally: &mut Vec<Coin>, denom: &String, amount: u128) -> (done: bool)
    requires
        is_tally(stakes(old(tally)@)),
    ensures
        done == (total(stakes(old(tally)@), denom@) + amount <= u128::MAX),
        !done ==> final(tally)@ == old(tally)@,
        done ==> is_tally(stakes(final(tally)@)),
        done ==> forall|d: Seq<char>|
            total(stakes(final(tally)@), d) == total(stakes(old(tally)@), d) + part(
                Stake { denom: denom@, amount: amount as nat },
                d,
            ),
        done ==> forall|d: Seq<char>|
            has_denom(stakes(final(tally)@), d) <==> (has_denom(stakes(old(tally)@), d) || d
                == denom@),
        done ==> denoms(stakes(final(tally)@)) == (if has_denom(stakes(old(tally)@), denom@) {
            denoms(stakes(old(tally)@))
        } else {
            denoms(stakes(old(tally)@)).push(denom@)
        }),
{
    let ghost before = stakes(tally@);
    let ghost added = Stake { denom: denom@, amount: amount as nat };
    match find_denom(tally, denom) {
        Some(i) => {
            proof {
                assert(before[i as int] == tally[i as int]@);
                lemma_total_of_entry(before, i as int);
            }
            match tally[i].amount.checked_add(amount) {
                Some(sum) => {
                    let entry = Coin { denom: denom.clone(), amount: sum };
                    tally.set(i, entry);
                    proof {
                        let after = stakes(tally@);
                        assert(after =~= before.update(i as int, entry@));
                        assert forall|d: Seq<char>|
                            total(after, d) == total(before, d) + part(added, d) by {
                            lemma_total_update(before, i as int, entry@, d);
                        }
                        assert forall|d: Seq<char>|
                            has_denom(after, d) <==> (has_denom(before, d) || d == denom@) by {
                            if has_denom(before, d) {
                                let j = choose|j: int|
                                    0 <= j < before.len() && (#[trigger] before[j]).denom == d;
                                assert(after[j].denom == d);
                            }
                            if d == denom@ {
                                assert(after[i as int].denom == d);
                            }
                            if has_denom(after, d) {
                                let j = choose|j: int|
                                    0 <= j < after.len() && (#[trigger] after[j]).denom == d;
                                assert(before[j].denom == d);
                            }
                        }
                        assert forall|j: int, k: int| 0 <= j < k < after.len() implies (
                        #[trigger] after[j]).denom != (#[trigger] after[k]).denom by {
                            assert(after[j].denom == before[j].denom);
                            assert(after[k].denom == before[k].denom);
                        }
                        assert(has_denom(before, denom@));
                        assert(denoms(after) =~= denoms(before));
                    }
                    true
                },
                None => false,
            }
        },
        None => {
            proof {
                lemma_total_absent(before, denom@);
            }
            let entry = Coin { denom: denom.clone(), amount };
            tally.push(entry);
            proof {
                let after = stakes(tally@);
                assert(after =~= before.push(added));
                assert forall|d: Seq<char>|
                    total(after, d) == total(before, d) + part(added, d) by {
                    lemma_total_push(before, added, d);
                }
                assert forall|d: Seq<char>|
                    has_denom(after, d) <==> (has_denom(before, d) || d == denom@) by {
                    if has_denom(before, d) {
                        let j = choose|j: int|
                            0 <= j < before.len() && (#[trigger] before[j]).denom == d;
                        assert(after[j].denom == d);
                    }
                    if d == denom@ {
                        assert(after[before.len() as int].denom == d);
                    }
                    if has_denom(after, d) {
                        let j = choose|j: int|
                            0 <= j < after.len() && (#[trigger] after[j]).denom == d;
                        if j < before.len() {
                            assert(before[j].denom == d);
                        }
                    }
                }
                assert forall|j: int, k: int| 0 <= j < k < after.len() implies (
                #[trigger] after[j]).denom != (#[trigger] after[k]).denom by {
                    assert(after[j] == before[j]);
                    if k < before.len() {
                        assert(after[k] == before[k]);
                    }
                }
                assert(denoms(after) =~= denoms(before).push(denom@));
            }
            true
        },
    }
}

} // verus!
