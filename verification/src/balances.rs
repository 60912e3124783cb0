use vstd::prelude::*;
use crate::money::Money;

verus! {

/// The total amount a balance list holds in currency `c`.  Under
/// `currencies_unique` this is the single entry's amount, or zero when the
/// currency is absent; stating it as a sum keeps it meaningful on any list.
pub open spec fn entries_total(s: Seq<Money>, c: Seq<char>) -> int
    decreases s.len(),
{
    if s.len() <= 0 {
        0
    } else {
        entries_total(s.drop_last(), c) + if s.last().currency@ == c {
            s.last().amount as int
        } else {
            0
        }
    }
}

/// No two entries of a balance list name the same currency.
pub open spec fn currencies_unique(s: Seq<Money>) -> bool {
    forall|i: int, j: int|
        0 <= i < j < s.len() ==> s[i].currency@ != s[j].currency@
}

/// Every entry of a balance list is non-negative.
pub open spec fn entries_non_negative(s: Seq<Money>) -> bool {
    forall|i: int| 0 <= i < s.len() ==> s[i].amount >= 0
}

pub proof fn lemma_entries_total_non_negative(s: Seq<Money>, c: Seq<char>)
    requires
        entries_non_negative(s),
    ensures
        entries_total(s, c) >= 0,
    decreases s.len(),
{
    if s.len() > 0 {
        assert(entries_non_negative(s.drop_last()));
        lemma_entries_total_non_negative(s.drop_last(), c);
    }
}

/// When no entry names `c`, the total in `c` is zero.
pub proof fn lemma_entries_total_absent(s: Seq<Money>, c: Seq<char>)
    requires
        forall|j: int| 0 <= j < s.len() ==> s[j].currency@ != c,
    ensures
        entries_total(s, c) == 0,
    decreases s.len(),
{
    if s.len() > 0 {
        lemma_entries_total_absent(s.drop_last(), c);
    }
}

/// Under uniqueness, the total in `c` is the amount of the entry naming `c`.
pub proof fn lemma_entries_total_at(s: Seq<Money>, c: Seq<char>, i: int)
    requires
        currencies_unique(s),
        0 <= i < s.len(),
        s[i].currency@ == c,
    ensures
        entries_total(s, c) == s[i].amount as int,
    decreases s.len(),
{
    if i == s.len() - 1 {
        assert(forall|j: int| 0 <= j < s.drop_last().len() ==> s.drop_last()[j].currency@ != c);
        lemma_entries_total_absent(s.drop_last(), c);
    } else {
        assert(currencies_unique(s.drop_last()));
        lemma_entries_total_at(s.drop_last(), c, i);
        assert(s.last().currency@ != c);
    }
}

/// How replacing one entry moves the total of every currency.
pub proof fn lemma_entries_total_update(s: Seq<Money>, i: int, m: Money, c: Seq<char>)
    requires
        0 <= i < s.len(),
    ensures
        entries_total(s.update(i, m), c) == entries_total(s, c)
            - (if s[i].currency@ == c { s[i].amount as int } else { 0 })
            + (if m.currency@ == c { m.amount as int } else { 0 }),
    decreases s.len(),
{
    let t = s.update(i, m);
    if i == s.len() - 1 {
        assert(t.drop_last() =~= s.drop_last());
        assert(t.last() == m);
    } else {
        assert(t.drop_last() =~= s.drop_last().update(i, m));
        lemma_entries_total_update(s.drop_last(), i, m, c);
        assert(t.last() == s.last());
    }
}

/// How appending one entry moves the total of every currency.
pub proof fn lemma_entries_total_push(s: Seq<Money>, m: Money, c: Seq<char>)
    ensures
        entries_total(s.push(m), c) == entries_total(s, c)
            + (if m.currency@ == c { m.amount as int } else { 0 }),
{
    assert(s.push(m).drop_last() =~= s);
    assert(s.push(m).last() == m);
}

/// The index of the entry naming `currency`, when one exists.
pub(crate) fn find_entry(balances: &Vec<Money>, currency: &String) -> (r: Option<usize>)
    ensures
        match r {
            Some(i) => i < balances@.len() && balances@[i as int].currency@ == currency@,
            None => forall|j: int|
                0 <= j < balances@.len() ==> balances@[j].currency@ != currency@,
        },
{
    let n = balances.len();
    let mut i: usize = 0;
    while i < n
        invariant
            n == balances@.len(),
            i <= n,
            forall|j: int| 0 <= j < i ==> balances@[j].currency@ != currency@,
        decreases n - i,
    {
        if balances[i].currency == *currency {
            return Some(i);
        }
        i = i + 1;
    }
    None
}

/// The amount held in `currency`, with an absent currency reading zero.
pub(crate) fn lookup_amount(balances: &Vec<Money>, currency: &String) -> (r: i64)
    requires
        currencies_unique(balances@),
    ensures
        r as int == entries_total(balances@, currency@),
{
    match find_entry(balances, currency) {
        Some(i) => {
            proof {
                lemma_entries_total_at(balances@, currency@, i as int);
            }
            balances[i].amount
        }
        None => {
            proof {
                lemma_entries_total_absent(balances@, currency@);
            }
            0
        }
    }
}

/// Sets the amount held in `currency`, leaving every other currency's
/// total as it was.
pub(crate) fn set_balance(balances: &mut Vec<Money>, currency: &String, new_amount: i64)
    requires
        currencies_unique(old(balances)@),
        entries_non_negative(old(balances)@),
        new_amount >= 0,
    ensures
        currencies_unique(final(balances)@),
        entries_non_negative(final(balances)@),
        forall|c: Seq<char>|
            entries_total(final(balances)@, c) == if c == currency@ {
                new_amount as int
            } else {
                entries_total(old(balances)@, c)
            },
{
    match find_entry(balances, currency) {
        Some(i) => {
            let ghost before = balances@;
            balances[i].amount = new_amount;
            proof {
                let m = balances@[i as int];
                assert(balances@ =~= before.update(i as int, m));
                assert forall|c: Seq<char>|
                    entries_total(balances@, c) == (if c == currency@ {
                        new_amount as int
                    } else {
                        entries_total(before, c)
                    }) by {
                    lemma_entries_total_update(before, i as int, m, c);
                    if c == currency@ {
                        lemma_entries_total_at(before, c, i as int);
                    }
                }
            }
        }
        None => {
            let ghost before = balances@;
            let entry = Money { currency: currency.clone(), amount: new_amount };
            balances.push(entry);
            proof {
                assert forall|c: Seq<char>|
                    entries_total(balances@, c) == (if c == currency@ {
                        new_amount as int
                    } else {
                        entries_total(before, c)
                    }) by {
                    lemma_entries_total_push(before, entry, c);
                    if c == currency@ {
                        lemma_entries_total_absent(before, c);
                    }
                }
            }
        }
    }
}

/// An equal copy of a balance list.
pub(crate) fn duplicate_balances(balances: &Vec<Money>) -> (r: Vec<Money>)
    ensures
        r@ == balances@,
{
    let n = balances.len();
    let mut r: Vec<Money> = Vec::new();
    let mut i: usize = 0;
    while i < n
        invariant
            n == balances@.len(),
            i <= n,
            r@ =~= balances@.subrange(0, i as int),
        decreases n - i,
    {
        r.push(balances[i].duplicate());
        i = i + 1;
    }
    proof {
        assert(r@ =~= balances@);
    }
    r
}

} // verus!
